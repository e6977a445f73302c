//! What the XLSX cell reader makes of cells that name their columns, and of rows that
//! name their numbers.

use vstd::prelude::*;
use crate::formats::Plain;
use crate::markup::{Attr, Piece};
use crate::number::Number;
use crate::xlsb_reader::{BookInfo, PlacedCell};
use crate::xlsx_cell_reader::{CellOutcome, CellPhase, CellSignal, CellsLeft, ScanState};
use crate::xlsx_placed_laws::{Given, Stored};
use crate::xlsx_read_laws::Doubles;
use crate::xlsx_scan::Parsed;
use crate::xml_events::{XmlItem, XmlKind};

verus! {

/// A cell as its tag begins it.
spec fn begun(scan: ScanState, cell: Given) -> ScanState {
    ScanState {
        row: scan.row,
        column: (cell.column + 1) as u32,
        phase: CellPhase::Cell,
        cell_column: cell.column as u32,
        cell_type: crate::xlsx_placed_laws::stored_as(cell.stored),
        style: cell.style,
        parsed: Parsed::Empty,
        gathered: false,
        scratch: Seq::empty(),
    }
}

/// The tag of a cell begins it.
proof fn lemma_cell_begun(scan: ScanState, cell: Given)
    requires
        scan.phase == CellPhase::Outside,
        0 <= cell.column < 16_384,
        0 <= cell.row < u32::MAX,
        0 <= cell.style <= usize::MAX,
        crate::xlsx_placed_laws::is_kind(cell.stored),
        !cell.is_named ==> scan.column == cell.column,
    ensures
        ({
            let attributes = crate::xlsx_placed_laws::given_attributes(cell);
            let open = Piece::Open { name: "c"@, attributes };
            let empty = Piece::Empty { name: "c"@, attributes, spaced: false };
            &&& scan.step(open.item()) == (begun(scan, cell), CellSignal::More)
            &&& scan.step(empty.item()) == (
                ScanState {
                    column: (cell.column + 1) as u32,
                    cell_column: cell.column as u32,
                    ..scan
                },
                CellSignal::EmptyCell,
            )
        }),
{
    let attributes = crate::xlsx_placed_laws::given_attributes(cell);
    let open = Piece::Open { name: "c"@, attributes };
    let empty = Piece::Empty { name: "c"@, attributes, spaced: false };
    crate::xlsx_placed_laws::lemma_given_names();
    crate::xlsx_placed_laws::lemma_given_attributes(cell);
    crate::xlsx_placed_laws::lemma_given_head(cell);
    assert(open.is_sound() && empty.is_sound());
    crate::markup::lemma_piece_tag(open, XmlKind::Start, "row"@);
    crate::markup::lemma_piece_tag(open, XmlKind::End, "row"@);
    crate::markup::lemma_piece_tag(open, XmlKind::Start, "c"@);
    crate::markup::lemma_piece_tag(empty, XmlKind::Start, "row"@);
    crate::markup::lemma_piece_tag(empty, XmlKind::End, "row"@);
    crate::markup::lemma_piece_tag(empty, XmlKind::Start, "c"@);
    crate::markup::lemma_piece_tag(empty, XmlKind::Empty, "c"@);
}

/// A piece inside a cell that says nothing of its value changes nothing.
proof fn lemma_passed_over(
    scan: ScanState,
    piece: Piece,
    rest: Seq<Result<XmlItem, Seq<char>>>,
)
    requires
        scan.phase == CellPhase::Cell,
        piece.is_sound(),
        match piece {
            Piece::Open { name, .. } => name == "f"@,
            Piece::Close(name) => name == "f"@,
            Piece::Text(_) => true,
            _ => false,
        },
    ensures
        scan.run(crate::markup::items(seq![piece]) + rest) == scan.run(rest),
{
    crate::xlsx_placed_laws::lemma_given_names();
    crate::markup::lemma_piece_tag(piece, XmlKind::End, "c"@);
    crate::markup::lemma_piece_tag(piece, XmlKind::Empty, "c"@);
    crate::markup::lemma_piece_tag(piece, XmlKind::Start, "v"@);
    crate::markup::lemma_piece_tag(piece, XmlKind::Start, "is"@);
    crate::markup::lemma_piece_tag(piece, XmlKind::Start, "t"@);
    crate::xlsx_cell_laws::lemma_take(scan, piece, rest);
}

/// The formula of a cell is passed over.
proof fn lemma_formula_read(
    scan: ScanState,
    formula: Seq<char>,
    rest: Seq<Result<XmlItem, Seq<char>>>,
)
    requires
        scan.phase == CellPhase::Cell,
        crate::markup::is_plain(formula),
    ensures
        scan.run(crate::markup::items(crate::xlsx_placed_laws::tagged("f"@, formula)) + rest)
            == scan.run(rest),
{
    crate::xlsx_placed_laws::lemma_given_names();
    let a = Piece::Open { name: "f"@, attributes: Seq::empty() };
    let b = Piece::Text(formula);
    let c = Piece::Close("f"@);
    crate::xlsx_placed_laws::lemma_three_items(a, b, c, rest);
    let r2 = crate::markup::items(seq![c]) + rest;
    let r1 = crate::markup::items(seq![b]) + r2;
    assert(a.is_sound());
    lemma_passed_over(scan, a, r1);
    lemma_passed_over(scan, b, r2);
    lemma_passed_over(scan, c, rest);
}

/// The text of a value is read up to the tag behind it.
proof fn lemma_value_read(
    scan: ScanState,
    text: Seq<char>,
    rest: Seq<Result<XmlItem, Seq<char>>>,
)
    requires
        scan.phase == CellPhase::Cell,
        scan.scratch == Seq::<char>::empty(),
        crate::markup::is_plain(text),
    ensures
        ({
            let events = crate::markup::items(crate::xlsx_placed_laws::tagged("v"@, text)) + rest;
            let read = ScanState { phase: CellPhase::Value, scratch: text, ..scan };
            scan.run(events) == match crate::xlsx_scan::stored_value(text, scan.cell_type) {
                Some(parsed) => (ScanState {
                    phase: CellPhase::Cell,
                    parsed,
                    gathered: false,
                    ..read
                }).run(rest),
                None => (read, rest, CellSignal::Number),
            }
        }),
{
    let a = Piece::Open { name: "v"@, attributes: Seq::empty() };
    let b = Piece::Text(text);
    let c = Piece::Close("v"@);
    crate::xlsx_placed_laws::lemma_three_items(a, b, c, rest);
    let r2 = crate::markup::items(seq![c]) + rest;
    let r1 = crate::markup::items(seq![b]) + r2;
    let s1 = ScanState { phase: CellPhase::Value, ..scan };
    let s2 = ScanState { scratch: text, ..s1 };
    crate::xlsx_cell_laws::lemma_value_opened(scan);
    crate::xlsx_cell_laws::lemma_take(scan, a, r1);
    crate::xlsx_cell_laws::lemma_value_text(s1, text);
    crate::xlsx_cell_laws::lemma_take(s1, b, r2);
    crate::xlsx_cell_laws::lemma_value_closed(s2);
    crate::xlsx_cell_laws::lemma_take(s2, c, rest);
}

/// A text that stands in a cell itself is read.
proof fn lemma_inline_read(
    scan: ScanState,
    text: Seq<char>,
    rest: Seq<Result<XmlItem, Seq<char>>>,
)
    requires
        scan.phase == CellPhase::Cell,
        scan.scratch == Seq::<char>::empty(),
        crate::markup::is_plain(text),
    ensures
        scan.run(
            crate::markup::items(crate::xlsx_placed_laws::stored_pieces(Stored::Inline(text)))
                + rest,
        ) == (ScanState { gathered: true, scratch: text, ..scan }).run(rest),
{
    crate::xlsx_placed_laws::lemma_given_names();
    let a = Piece::Open { name: "is"@, attributes: Seq::empty() };
    let b = Piece::Open { name: "t"@, attributes: Seq::empty() };
    let c = Piece::Text(text);
    let d = Piece::Close("t"@);
    let e = Piece::Close("is"@);
    let r4 = crate::markup::items(seq![e]) + rest;
    let r3 = crate::markup::items(seq![d]) + r4;
    let r2 = crate::markup::items(seq![c]) + r3;
    let r1 = crate::markup::items(seq![b]) + r2;
    let pieces = crate::xlsx_placed_laws::stored_pieces(Stored::Inline(text));
    assert(pieces =~= seq![a] + seq![b, c, d] + seq![e]);
    crate::markup::lemma_items_concat(seq![a], seq![b, c, d]);
    crate::markup::lemma_items_concat(seq![a] + seq![b, c, d], seq![e]);
    crate::xlsx_placed_laws::lemma_three_items(b, c, d, r4);
    assert(crate::markup::items(pieces) + rest =~= crate::markup::items(seq![a]) + (
    crate::markup::items(seq![b, c, d]) + r4));
    assert(a.is_sound() && b.is_sound() && d.is_sound() && e.is_sound());
    crate::xlsx_placed_laws::lemma_inline_tag(a);
    crate::xlsx_placed_laws::lemma_inline_tag(b);
    crate::xlsx_placed_laws::lemma_inline_tag(d);
    crate::xlsx_placed_laws::lemma_inline_tag(e);
    let s1 = ScanState { phase: CellPhase::Inline, ..scan };
    let s2 = ScanState { phase: CellPhase::InlineText, ..scan };
    let s3 = ScanState { phase: CellPhase::InlineText, scratch: text, ..scan };
    let s4 = ScanState { phase: CellPhase::Inline, scratch: text, ..scan };
    crate::xlsx_cell_laws::lemma_take(scan, a, r1);
    crate::xlsx_cell_laws::lemma_take(s1, b, r2);
    vstd::utf8::encode_utf8_valid_utf8(text);
    vstd::utf8::encode_utf8_decode_utf8(text);
    assert(Seq::<char>::empty() + text =~= text);
    crate::xlsx_cell_laws::lemma_take(s2, c, r3);
    crate::xlsx_cell_laws::lemma_take(s3, d, r4);
    crate::xlsx_cell_laws::lemma_take(s4, e, rest);
}

/// The value of a number in a style.
spec fn number_value(style: int, bits: u64, info: BookInfo) -> Plain {
    let format = info.format_of(style);
    if style > 0 && (14 <= format <= 22 || 45 <= format <= 47 || info.date_formats.contains(
        format,
    )) {
        Plain::DateTime(Number::Double(bits))
    } else {
        Plain::Number(Number::Double(bits))
    }
}

/// The value that a cell holds.
spec fn given_value(cell: Given, info: BookInfo, doubles: Doubles) -> Plain {
    match cell.stored {
        Stored::Boolean(text) => Plain::Boolean(text == "1"@ || text == "true"@),
        Stored::Shared(i) => Plain::Text(info.shared[i]),
        Stored::Number(text) => number_value(cell.style, doubles(text)->0, info),
        Stored::Other(_, text) => match doubles(text) {
            Some(bits) => number_value(cell.style, bits, info),
            None => Plain::Text(text),
        },
        Stored::Inline(text) => Plain::Text(text),
        Stored::Blank => Plain::Empty,
    }
}

/// The text of a value whose double has to be known.
spec fn awaited(stored: Stored) -> Option<Seq<char>> {
    match stored {
        Stored::Number(text) => Some(text),
        Stored::Other(_, text) => Some(text),
        _ => None,
    }
}

/// The value of a cell is read.
#[verifier::spinoff_prover]
proof fn lemma_stored_read(
    scan: ScanState,
    cell: Given,
    rest: Seq<Result<XmlItem, Seq<char>>>,
    info: BookInfo,
    doubles: Doubles,
) -> (after: ScanState)
    requires
        crate::xlsx_placed_laws::is_given(cell, info, doubles),
        scan == begun(scan, cell),
    ensures
        ({
            let events = crate::markup::items(crate::xlsx_placed_laws::stored_pieces(cell.stored))
                + rest;
            match awaited(cell.stored) {
                Some(text) => {
                    let (read, left, signal) = scan.run(events);
                    &&& left == rest
                    &&& signal is Number
                    &&& read.scratch == text
                    &&& read.with_number(doubles(text), info) == (after, CellSignal::More)
                },
                None => scan.run(events) == after.run(rest),
            }
        }),
        after.phase == CellPhase::Cell,
        after.row == scan.row,
        after.column == scan.column,
        after.cell_column == scan.cell_column,
        after.value(info.shared) == given_value(cell, info, doubles),
{
    crate::xlsx_placed_laws::lemma_given_names();
    let read = |text: Seq<char>| ScanState { phase: CellPhase::Value, scratch: text, ..scan };
    match cell.stored {
        Stored::Boolean(text) => {
            let parsed = Parsed::Boolean(text == "1"@ || text == "true"@);
            lemma_value_read(scan, text, rest);
            ScanState { parsed, scratch: text, ..scan }
        },
        Stored::Shared(i) => {
            let text = crate::text::decimal(i);
            crate::xlsx_markup::lemma_decimal_is_plain(i);
            crate::xlsx_read_laws::lemma_index_bytes(i, usize::MAX);
            lemma_value_read(scan, text, rest);
            ScanState { parsed: Parsed::SharedString(i as usize), scratch: text, ..scan }
        },
        Stored::Number(text) => {
            lemma_value_read(scan, text, rest);
            read(text).with_number(doubles(text), info).0
        },
        Stored::Other(_, text) => {
            lemma_value_read(scan, text, rest);
            read(text).with_number(doubles(text), info).0
        },
        Stored::Inline(text) => {
            lemma_inline_read(scan, text, rest);
            ScanState { gathered: true, scratch: text, ..scan }
        },
        Stored::Blank => {
            let pieces = crate::xlsx_placed_laws::stored_pieces(cell.stored);
            assert(crate::markup::items(pieces) + rest =~= rest);
            scan
        },
    }
}

/// The next cell of a sheet is given, whatever program wrote it: at the column that the
/// letters of its reference name, whatever cells stand before it, or behind the cell
/// before it where it names none; in the row at hand; and with its value. A number is a
/// date where its style has one of Excel's own date formats, 14 to 22 and 45 to 47, or
/// one of the workbook's; a truth value is true where it says `1` or `true`; a value
/// stored in another way is a number where it says one, and text where not; the formula
/// of a cell says nothing of its value. What stands behind the cell is left to be read.
#[verifier::spinoff_prover]
pub proof fn law_cell_is_given_where_it_stands(
    c: CellsLeft,
    cell: Given,
    rest: Seq<Result<XmlItem, Seq<char>>>,
    doubles: Doubles,
)
    requires
        c.scan.phase == CellPhase::Outside,
        c.events == crate::markup::items(crate::xlsx_placed_laws::given_pieces(cell)) + rest,
        crate::xlsx_placed_laws::is_given(cell, c.info, doubles),
        !cell.is_named ==> c.scan.column == cell.column,
    ensures
        ({
            let (after, outcome) = crate::xlsx_cell_laws::cell_read(c, doubles);
            let style = cell.style;
            let dated = 0 < style < c.info.formats.len() && (14 <= c.info.formats[style] <= 22 || 45
                <= c.info.formats[style] <= 47 || c.info.date_formats.contains(
                c.info.formats[style],
            )) || (style > 0 && style >= c.info.formats.len() && c.info.date_formats.contains(0));
            &&& outcome == CellOutcome::Cell(
                PlacedCell {
                    row: c.scan.row,
                    column: cell.column as u32,
                    value: match cell.stored {
                        Stored::Boolean(text) => Plain::Boolean(text == "1"@ || text == "true"@),
                        Stored::Shared(k) => Plain::Text(c.info.shared[k]),
                        Stored::Number(text) => if dated {
                            Plain::DateTime(Number::Double(doubles(text)->0))
                        } else {
                            Plain::Number(Number::Double(doubles(text)->0))
                        },
                        Stored::Other(_, text) => if doubles(text) is None {
                            Plain::Text(text)
                        } else if dated {
                            Plain::DateTime(Number::Double(doubles(text)->0))
                        } else {
                            Plain::Number(Number::Double(doubles(text)->0))
                        },
                        Stored::Inline(text) => Plain::Text(text),
                        Stored::Blank => Plain::Empty,
                    },
                },
            )
            &&& after.events == rest
            &&& after.info == c.info
            &&& after.scan.phase == CellPhase::Outside
            &&& after.scan.row == c.scan.row
            &&& after.scan.column == cell.column + 1
        }),
{
    let info = c.info;
    let scan = c.scan;
    lemma_cell_begun(scan, cell);
    match awaited(cell.stored) {
        Some(text) => {
            lemma_given_value(cell.style, doubles(text)->0, info);
        },
        None => {},
    }
    let attributes = crate::xlsx_placed_laws::given_attributes(cell);
    if cell.stored is Blank && cell.formula is None {
        let piece = Piece::Empty { name: "c"@, attributes, spaced: false };
        crate::xlsx_cell_laws::lemma_take(scan, piece, rest);
        let last = ScanState {
            column: (cell.column + 1) as u32,
            cell_column: cell.column as u32,
            ..scan
        };
        lemma_blank_read(c, last, rest, doubles);
    } else {
        let close = Piece::Close("c"@);
        let r3 = crate::markup::items(seq![close]) + rest;
        let s1 = begun(scan, cell);
        lemma_stored_reached(scan, cell, rest);
        let events = crate::markup::items(crate::xlsx_placed_laws::stored_pieces(cell.stored)) + r3;
        assert(scan.run(c.events) == s1.run(events));
        let s2 = lemma_stored_read(s1, cell, r3, info, doubles);
        crate::xlsx_cell_laws::lemma_cell_closed(s2);
        crate::xlsx_cell_laws::lemma_take(s2, close, rest);
        let last = ScanState { phase: CellPhase::Outside, ..s2 };
        assert(last.value(info.shared) == s2.value(info.shared));
        assert(s2.run(r3) == (last, rest, CellSignal::Cell));
        match awaited(cell.stored) {
            Some(text) => {
                let read = s1.run(events).0;
                lemma_read_later(c, read, r3, text, s2, last, rest, doubles);
            },
            None => {
                lemma_read_at_once(c, last, rest, doubles);
            },
        }
    }
}

/// The value of a cell that is read in one go.
proof fn lemma_read_at_once(
    c: CellsLeft,
    last: ScanState,
    rest: Seq<Result<XmlItem, Seq<char>>>,
    doubles: Doubles,
)
    requires
        c.scan.phase == CellPhase::Outside,
        c.scan.run(c.events) == (last, rest, CellSignal::Cell),
    ensures
        crate::xlsx_cell_laws::cell_read(c, doubles) == (
            CellsLeft { events: rest, scan: last, ..c },
            CellOutcome::Cell(
                PlacedCell {
                    row: last.row,
                    column: last.cell_column,
                    value: last.value(c.info.shared),
                },
            ),
        ),
{
    assert(ScanState { phase: CellPhase::Outside, ..c.scan } == c.scan);
}

/// A cell without a value.
proof fn lemma_blank_read(
    c: CellsLeft,
    last: ScanState,
    rest: Seq<Result<XmlItem, Seq<char>>>,
    doubles: Doubles,
)
    requires
        c.scan.phase == CellPhase::Outside,
        c.scan.run(c.events) == (last, rest, CellSignal::EmptyCell),
    ensures
        crate::xlsx_cell_laws::cell_read(c, doubles) == (
            CellsLeft { events: rest, scan: last, ..c },
            CellOutcome::Cell(
                PlacedCell { row: last.row, column: last.cell_column, value: Plain::Empty },
            ),
        ),
{
    assert(ScanState { phase: CellPhase::Outside, ..c.scan } == c.scan);
}

/// A cell that is read up to the text of its value and on with the double of it.
proof fn lemma_read_later(
    c: CellsLeft,
    read: ScanState,
    left: Seq<Result<XmlItem, Seq<char>>>,
    text: Seq<char>,
    next: ScanState,
    last: ScanState,
    rest: Seq<Result<XmlItem, Seq<char>>>,
    doubles: Doubles,
)
    requires
        c.scan.phase == CellPhase::Outside,
        c.scan.run(c.events) == (read, left, CellSignal::Number),
        read.scratch == text,
        read.with_number(doubles(text), c.info) == (next, CellSignal::More),
        next.run(left) == (last, rest, CellSignal::Cell),
    ensures
        crate::xlsx_cell_laws::cell_read(c, doubles) == (
            CellsLeft { events: rest, scan: last, ..c },
            CellOutcome::Cell(
                PlacedCell {
                    row: last.row,
                    column: last.cell_column,
                    value: last.value(c.info.shared),
                },
            ),
        ),
{
    assert(ScanState { phase: CellPhase::Outside, ..c.scan } == c.scan);
    let waiting = CellsLeft { events: left, scan: read, ..c };
    assert(c.next() == (waiting, CellOutcome::Number(text)));
    let (after, r) = waiting.resumed(doubles(text));
    assert(!(r is Number));
}

/// A cell is read up to its value.
#[verifier::spinoff_prover]
proof fn lemma_stored_reached(
    scan: ScanState,
    cell: Given,
    rest: Seq<Result<XmlItem, Seq<char>>>,
)
    requires
        scan.phase == CellPhase::Outside,
        0 <= cell.column < 16_384,
        0 <= cell.row < u32::MAX,
        0 <= cell.style <= usize::MAX,
        crate::xlsx_placed_laws::is_kind(cell.stored),
        !cell.is_named ==> scan.column == cell.column,
        !(cell.stored is Blank && cell.formula is None),
        cell.formula matches Some(formula) ==> crate::markup::is_plain(formula),
    ensures
        ({
            let events = crate::markup::items(crate::xlsx_placed_laws::given_pieces(cell)) + rest;
            let left = crate::markup::items(crate::xlsx_placed_laws::stored_pieces(cell.stored)) + (
            crate::markup::items(seq![Piece::Close("c"@)]) + rest);
            scan.run(events) == begun(scan, cell).run(left)
        }),
{
    lemma_cell_begun(scan, cell);
    let attributes = crate::xlsx_placed_laws::given_attributes(cell);
    let open = Piece::Open { name: "c"@, attributes };
    let close = Piece::Close("c"@);
    let formula = match cell.formula {
        Some(formula) => crate::xlsx_placed_laws::tagged("f"@, formula),
        None => Seq::empty(),
    };
    let stored = crate::xlsx_placed_laws::stored_pieces(cell.stored);
    let r3 = crate::markup::items(seq![close]) + rest;
    let r2 = crate::markup::items(stored) + r3;
    let r1 = crate::markup::items(formula) + r2;
    assert(crate::xlsx_placed_laws::given_pieces(cell) == seq![open] + formula + stored + seq![
        close,
    ]);
    crate::xlsx_placed_laws::lemma_four_parts(seq![open], formula, stored, seq![close], rest);
    let s1 = begun(scan, cell);
    crate::xlsx_cell_laws::lemma_take(scan, open, r1);
    match cell.formula {
        Some(text) => {
            lemma_formula_read(s1, text, r2);
        },
        None => {
            assert(r1 =~= r2);
        },
    }
}

/// What the value of a number is.
proof fn lemma_given_value(style: int, bits: u64, info: BookInfo)
    requires
        0 <= style,
    ensures
        number_value(style, bits, info) == if 0 < style < info.formats.len() && (14
            <= info.formats[style] <= 22 || 45 <= info.formats[style] <= 47
            || info.date_formats.contains(info.formats[style])) || (style > 0 && style
            >= info.formats.len() && info.date_formats.contains(0)) {
            Plain::DateTime(Number::Double(bits))
        } else {
            Plain::Number(Number::Double(bits))
        },
{
}

/// A row that names its number, counted from one, is that row: the cells in it are
/// given as those of the row.
pub proof fn law_row_is_the_one_it_names(
    c: CellsLeft,
    row: int,
    more: Seq<Attr>,
    rest: Seq<Result<XmlItem, Seq<char>>>,
    doubles: Doubles,
)
    requires
        0 <= row < u32::MAX,
        c.scan.phase == CellPhase::Outside,
        ({
            let attributes = seq![Attr { key: "r"@, value: crate::text::decimal(row + 1) }] + more;
            &&& crate::markup::are_attributes(attributes)
            &&& c.events == crate::markup::items(seq![Piece::Open { name: "row"@, attributes }])
                + rest
        }),
    ensures
        crate::xlsx_cell_laws::cell_read(c, doubles) == crate::xlsx_cell_laws::cell_read(
            CellsLeft { events: rest, scan: ScanState { row: row as u32, ..c.scan }, ..c },
            doubles,
        ),
{
    let attributes = seq![Attr { key: "r"@, value: crate::text::decimal(row + 1) }] + more;
    let piece = Piece::Open { name: "row"@, attributes };
    let scan = c.scan;
    crate::xlsx_placed_laws::lemma_given_names();
    assert(piece.is_sound());
    crate::markup::lemma_piece_tag(piece, XmlKind::Start, "row"@);
    crate::xlsx_read_laws::lemma_digit_bytes((row + 1) as nat);
    let list = piece.item().attributes;
    assert(list[0] == crate::markup::attribute_items(attributes)[0]);
    assert(crate::xlsx_scan::row_number(list, 0) == Some(row as u32));
    let next = ScanState { row: row as u32, ..scan };
    crate::xlsx_cell_laws::lemma_take(scan, piece, rest);
    assert(ScanState { phase: CellPhase::Outside, ..scan } == scan);
    assert(ScanState { phase: CellPhase::Outside, ..next } == next);
    assert(c.next() == (CellsLeft { events: rest, scan: next, ..c }).next());
}

/// Behind a row stands the next one, from its first column on.
pub proof fn law_next_row_follows(
    c: CellsLeft,
    rest: Seq<Result<XmlItem, Seq<char>>>,
    doubles: Doubles,
)
    requires
        c.scan.phase == CellPhase::Outside,
        c.scan.row < u32::MAX,
        c.events == crate::markup::items(seq![Piece::Close("row"@)]) + rest,
    ensures
        crate::xlsx_cell_laws::cell_read(c, doubles) == crate::xlsx_cell_laws::cell_read(
            CellsLeft {
                events: rest,
                scan: ScanState { row: (c.scan.row + 1) as u32, column: 0, ..c.scan },
                ..c
            },
            doubles,
        ),
{
    let piece = Piece::Close("row"@);
    let scan = c.scan;
    crate::xlsx_placed_laws::lemma_given_names();
    crate::markup::lemma_piece_tag(piece, XmlKind::Start, "row"@);
    crate::markup::lemma_piece_tag(piece, XmlKind::End, "row"@);
    let next = ScanState { row: (scan.row + 1) as u32, column: 0, ..scan };
    crate::xlsx_cell_laws::lemma_take(scan, piece, rest);
    assert(ScanState { phase: CellPhase::Outside, ..scan } == scan);
    assert(ScanState { phase: CellPhase::Outside, ..next } == next);
    assert(c.next() == (CellsLeft { events: rest, scan: next, ..c }).next());
}

} // verus!
