//! What the XLSX reader makes of rows whose cells name their columns.

use vstd::prelude::*;
use crate::formats::{Cell, Plain};
use crate::markup::{Attr, Piece};
use crate::number::Number;
use crate::xlsb_reader::BookInfo;
use crate::xlsx_reader::{Progress, XlsxBookState};
use crate::xlsx_rows::{CellState, RowState, Signal};
use crate::xlsx_scan::{Parsed, XlsxCellType};
use crate::xml_events::{XmlItem, XmlKind};

verus! {

/// How the value of a cell is stored: as a truth value, the index of a shared
/// string, a number, in another way that its `t` attribute names, such as the text of a
/// formula's result (`str`) or an error (`e`), as a text of its own, or not at all.
pub enum Stored {
    Boolean(Seq<char>),
    Shared(int),
    Number(Seq<char>),
    Other(Seq<char>, Seq<char>),
    Inline(Seq<char>),
    Blank,
}

/// A cell as it stands in a sheet: its zero-based row and column, whether it names
/// them, its style, the formula that it holds, and its value.
pub struct Given {
    pub row: int,
    pub column: int,
    pub is_named: bool,
    pub style: int,
    pub formula: Option<Seq<char>>,
    pub stored: Stored,
}

/// The `t` attribute of a cell.
pub open spec fn kind_attribute(stored: Stored) -> Seq<Attr> {
    match stored {
        Stored::Boolean(_) => seq![Attr { key: "t"@, value: "b"@ }],
        Stored::Shared(_) => seq![Attr { key: "t"@, value: "s"@ }],
        Stored::Other(kind, _) => seq![Attr { key: "t"@, value: kind }],
        Stored::Inline(_) => seq![Attr { key: "t"@, value: "inlineStr"@ }],
        Stored::Number(_) => Seq::empty(),
        Stored::Blank => Seq::empty(),
    }
}

/// The attributes of a cell: its reference, such as `C1`, its style, and how its
/// value is stored.
pub open spec fn given_attributes(cell: Given) -> Seq<Attr> {
    (if cell.is_named {
        seq![
            Attr {
                key: "r"@,
                value: crate::xml_utils::column_letters((cell.column + 1) as nat)
                    + crate::text::decimal(cell.row + 1),
            },
        ]
    } else {
        Seq::empty()
    }) + seq![Attr { key: "s"@, value: crate::text::decimal(cell.style) }] + kind_attribute(
        cell.stored,
    )
}

/// A tag with text in it.
pub open spec fn tagged(name: Seq<char>, text: Seq<char>) -> Seq<Piece> {
    seq![
        Piece::Open { name, attributes: Seq::empty() },
        Piece::Text(text),
        Piece::Close(name),
    ]
}

/// The pieces of a cell's value.
pub open spec fn stored_pieces(stored: Stored) -> Seq<Piece> {
    match stored {
        Stored::Boolean(text) => tagged("v"@, text),
        Stored::Shared(i) => tagged("v"@, crate::text::decimal(i)),
        Stored::Number(text) => tagged("v"@, text),
        Stored::Other(_, text) => tagged("v"@, text),
        Stored::Inline(text) => seq![Piece::Open { name: "is"@, attributes: Seq::empty() }]
            + tagged("t"@, text) + seq![Piece::Close("is"@)],
        Stored::Blank => Seq::empty(),
    }
}

/// The pieces of a cell.
pub open spec fn given_pieces(cell: Given) -> Seq<Piece> {
    if cell.stored is Blank && cell.formula is None {
        seq![Piece::Empty { name: "c"@, attributes: given_attributes(cell), spaced: false }]
    } else {
        seq![Piece::Open { name: "c"@, attributes: given_attributes(cell) }] + (match cell.formula {
            Some(formula) => tagged("f"@, formula),
            None => Seq::empty(),
        }) + stored_pieces(cell.stored) + seq![Piece::Close("c"@)]
    }
}

/// The pieces of the first `n` cells.
pub open spec fn cells_given(cells: Seq<Given>, n: nat) -> Seq<Piece>
    decreases n,
{
    if n == 0 {
        Seq::empty()
    } else {
        cells_given(cells, (n - 1) as nat) + given_pieces(cells[n - 1])
    }
}

/// Another way of storing values has a name of its own.
pub open spec fn is_kind(stored: Stored) -> bool {
    stored matches Stored::Other(kind, _) ==> {
        &&& crate::markup::is_value(kind)
        &&& kind != "s"@
        &&& kind != "b"@
        &&& kind != "inlineStr"@
        &&& kind != "inline_string"@
    }
}

/// The cell can be read: it stands in the sheet, its texts hold no markup, and its
/// value can be found.
pub open spec fn is_given(
    cell: Given,
    info: BookInfo,
    doubles: crate::xlsx_read_laws::Doubles,
) -> bool {
    &&& 0 <= cell.column < 16_384
    &&& 0 <= cell.row < u32::MAX
    &&& 0 <= cell.style <= usize::MAX
    &&& is_kind(cell.stored)
    &&& cell.formula matches Some(formula) ==> crate::markup::is_plain(formula)
    &&& match cell.stored {
        Stored::Shared(i) => 0 <= i < info.shared.len() && i <= usize::MAX,
        Stored::Number(text) => crate::markup::is_plain(text) && doubles(text) is Some,
        Stored::Boolean(text) => crate::markup::is_plain(text),
        Stored::Other(_, text) => crate::markup::is_plain(text),
        Stored::Inline(text) => crate::markup::is_plain(text),
        _ => true,
    }
}

/// The cells can be read one after the other: a cell that does not name its column
/// stands behind the cell before it, and no two cells stand at one column.
pub open spec fn are_given(
    cells: Seq<Given>,
    info: BookInfo,
    doubles: crate::xlsx_read_laws::Doubles,
) -> bool {
    &&& forall|i: int| 0 <= i < cells.len() ==> is_given(#[trigger] cells[i], info, doubles)
    &&& cells.len() > 0 && !cells[0].is_named ==> cells[0].column == 0
    &&& forall|i: int, j: int|
        0 <= i && j == i + 1 && j < cells.len() && !(#[trigger] cells[j]).is_named
            ==> cells[j].column == (#[trigger] cells[i]).column + 1
    &&& forall|i: int, j: int|
        0 <= i < j < cells.len() ==> (#[trigger] cells[i]).column != (#[trigger] cells[j]).column
}

/// Letters are the bytes of a column's name.
proof fn lemma_letter_bytes(letters: Seq<char>)
    requires
        forall|i: int|
            0 <= i < letters.len() ==> crate::xml_utils::is_capital(#[trigger] letters[i]),
    ensures
        ({
            let bytes = vstd::utf8::encode_utf8(letters);
            &&& bytes.len() == letters.len()
            &&& forall|i: int|
                0 <= i < bytes.len() ==> crate::xlsx_scan::is_letter(#[trigger] bytes[i])
            &&& crate::xlsx_scan::letters_number(bytes) == crate::xml_utils::column_number(letters)
        }),
    decreases letters.len(),
{
    let bytes = vstd::utf8::encode_utf8(letters);
    assert forall|i: int| 0 <= i < letters.len() implies (letters[i] as u32) < 128 by {
        assert(crate::xml_utils::is_capital(letters[i]));
    }
    assert(vstd::utf8::is_ascii_chars(letters));
    vstd::utf8::is_ascii_chars_encode_utf8(letters);
    assert forall|i: int| 0 <= i < bytes.len() implies crate::xlsx_scan::is_letter(
        #[trigger] bytes[i],
    ) by {
        assert(crate::xml_utils::is_capital(letters[i]));
        assert(letters[i] as u8 == bytes[i]);
    }
    if letters.len() > 0 {
        let init = letters.drop_last();
        let last = seq![letters.last()];
        assert forall|i: int| 0 <= i < init.len() implies crate::xml_utils::is_capital(
            #[trigger] init[i],
        ) by {
            assert(init[i] == letters[i]);
        }
        lemma_letter_bytes(init);
        assert(letters =~= init + last);
        crate::xlsx_laws::lemma_encode_concat(init, last);
        assert(bytes.drop_last() =~= vstd::utf8::encode_utf8(init));
        let n = letters.len() - 1;
        assert(crate::xml_utils::is_capital(letters[n]));
        assert(letters[n] as u8 == bytes[n]);
    }
}

/// The letters in front of digits end where the digits begin.
proof fn lemma_letters_end(bytes: Seq<u8>, split: int, from: int)
    requires
        0 <= from <= split < bytes.len(),
        forall|i: int| 0 <= i < split ==> crate::xlsx_scan::is_letter(#[trigger] bytes[i]),
        !crate::xlsx_scan::is_letter(bytes[split]),
    ensures
        crate::xlsx_scan::letters_end(bytes, from) == split,
    decreases split - from,
{
    if from < split {
        assert(crate::xlsx_scan::is_letter(bytes[from]));
        lemma_letters_end(bytes, split, from + 1);
    }
}

/// A cell reference, such as `C1`, names the column by its letters and the row by its
/// digits, both from one.
pub proof fn law_cell_reference_names_its_cell(letters: Seq<char>, row: int)
    requires
        crate::xml_utils::is_column_name(letters),
        crate::xml_utils::column_number(letters) <= u32::MAX,
        0 <= row < u32::MAX,
    ensures
        crate::xlsx_scan::cell_reference(
            vstd::utf8::encode_utf8(letters + crate::text::decimal(row + 1)),
        ) == Some((row as u32, (crate::xml_utils::column_number(letters) - 1) as u32)),
{
    let digits = crate::text::decimal(row + 1);
    lemma_letter_bytes(letters);
    crate::xlsx_read_laws::lemma_digit_bytes((row + 1) as nat);
    crate::xlsx_laws::lemma_encode_concat(letters, digits);
    let bytes = vstd::utf8::encode_utf8(letters + digits);
    let front = vstd::utf8::encode_utf8(letters);
    let back = vstd::utf8::encode_utf8(digits);
    let split = front.len() as int;
    assert(bytes =~= front + back);
    assert(crate::xlsx_scan::is_byte_digit(back[0]));
    assert(bytes[split] == back[0]);
    assert forall|i: int| 0 <= i < split implies crate::xlsx_scan::is_letter(
        #[trigger] bytes[i],
    ) by {
        assert(bytes[i] == front[i]);
    }
    lemma_letters_end(bytes, split, 0);
    assert(bytes.take(split) =~= front);
    assert(bytes.skip(split) =~= back);
}

/// The names of the tags and attributes of cells.
pub proof fn lemma_given_names()
    ensures
        crate::markup::is_name("c"@),
        crate::markup::is_name("v"@),
        crate::markup::is_name("f"@),
        crate::markup::is_name("is"@),
        crate::markup::is_name("t"@),
        crate::markup::is_name("row"@),
        crate::markup::is_key("r"@),
        crate::markup::is_key("s"@),
        crate::markup::is_key("t"@),
        "r"@ != "s"@,
        "r"@ != "t"@,
        "s"@ != "t"@,
        "b"@ != "s"@,
        "inlineStr"@ != "s"@,
        "inlineStr"@ != "b"@,
        "c"@ != "v"@,
        "c"@ != "f"@,
        "c"@ != "is"@,
        "c"@ != "t"@,
        "c"@ != "row"@,
        "v"@ != "f"@,
        "v"@ != "is"@,
        "v"@ != "t"@,
        "f"@ != "is"@,
        "f"@ != "t"@,
        "is"@ != "t"@,
        crate::markup::is_value("b"@),
        crate::markup::is_value("s"@),
        crate::markup::is_value("inlineStr"@),
{
    reveal_strlit("c");
    reveal_strlit("v");
    reveal_strlit("f");
    reveal_strlit("is");
    reveal_strlit("t");
    reveal_strlit("row");
    reveal_strlit("r");
    reveal_strlit("s");
    reveal_strlit("b");
    reveal_strlit("inlineStr");
    assert("r"@[0] == 'r' && "s"@[0] == 's' && "t"@[0] == 't' && "b"@[0] == 'b');
    assert("c"@[0] == 'c' && "v"@[0] == 'v' && "f"@[0] == 'f');
    assert("inlineStr"@.len() == 9);
}

/// The storage that the `t` attribute of a cell says.
pub open spec fn stored_as(stored: Stored) -> XlsxCellType {
    match stored {
        Stored::Boolean(_) => XlsxCellType::Boolean,
        Stored::Shared(_) => XlsxCellType::SharedString,
        Stored::Number(_) => XlsxCellType::Number,
        Stored::Other(_, _) => XlsxCellType::Other,
        Stored::Inline(_) => XlsxCellType::InlineString,
        Stored::Blank => XlsxCellType::Number,
    }
}

/// The attributes of a cell can stand in its tag.
pub proof fn lemma_given_attributes(cell: Given)
    requires
        0 <= cell.column,
        is_kind(cell.stored),
    ensures
        crate::markup::are_attributes(given_attributes(cell)),
{
    lemma_given_names();
    crate::xlsx_markup::lemma_decimal_is_plain(cell.row + 1);
    crate::xlsx_markup::lemma_decimal_is_plain(cell.style);
    let letters = crate::xml_utils::column_letters((cell.column + 1) as nat);
    let digits = crate::text::decimal(cell.row + 1);
    crate::xml_utils::law_column_round_trip((cell.column + 1) as nat);
    let value = letters + digits;
    assert forall|i: int| 0 <= i < value.len() implies #[trigger] value[i] != '"' by {
        if i < letters.len() {
            assert(crate::xml_utils::is_capital(letters[i]));
            assert(value[i] == letters[i]);
        } else {
            assert(value[i] == digits[i - letters.len()]);
        }
    }
}

/// The attributes of a cell are read: the column that the letters of its reference
/// name, its storage, and its style.
pub proof fn lemma_given_head(cell: Given)
    requires
        0 <= cell.column < u32::MAX,
        0 <= cell.row < u32::MAX,
        0 <= cell.style <= usize::MAX,
        is_kind(cell.stored),
    ensures
        ({
            let list = crate::markup::attribute_items(given_attributes(cell));
            crate::xlsx_scan::cell_head(list, list.len()) == (crate::xlsx_scan::CellHead {
                column: if cell.is_named {
                    Some(cell.column as u32)
                } else {
                    None
                },
                cell_type: stored_as(cell.stored),
                style: cell.style,
            })
        }),
{
    lemma_given_names();
    let list = crate::markup::attribute_items(given_attributes(cell));
    let letters = crate::xml_utils::column_letters((cell.column + 1) as nat);
    crate::xml_utils::law_column_round_trip((cell.column + 1) as nat);
    law_cell_reference_names_its_cell(letters, cell.row);
    crate::xlsx_read_laws::lemma_index_bytes(cell.style, 0);
    crate::markup::lemma_same_bytes("s"@, "r"@);
    crate::markup::lemma_same_bytes("t"@, "r"@);
    crate::markup::lemma_same_bytes("t"@, "s"@);
    crate::markup::lemma_same_bytes("b"@, "s"@);
    if let Stored::Other(kind, _) = cell.stored {
        crate::markup::lemma_same_bytes(kind, "s"@);
        crate::markup::lemma_same_bytes(kind, "b"@);
        crate::markup::lemma_same_bytes(kind, "inlineStr"@);
        crate::markup::lemma_same_bytes(kind, "inline_string"@);
    }
    crate::markup::lemma_same_bytes("inlineStr"@, "s"@);
    crate::markup::lemma_same_bytes("inlineStr"@, "b"@);
    reveal_with_fuel(crate::xlsx_scan::cell_head, 4);
}

pub proof fn lemma_three_items(
    a: Piece,
    b: Piece,
    c: Piece,
    rest: Seq<Result<XmlItem, Seq<char>>>,
)
    ensures
        crate::markup::items(seq![a, b, c]) + rest == crate::markup::items(seq![a]) + (
        crate::markup::items(seq![b]) + (crate::markup::items(seq![c]) + rest)),
{
    assert(crate::markup::items(seq![a, b, c]) + rest =~= crate::markup::items(seq![a]) + (
    crate::markup::items(seq![b]) + (crate::markup::items(seq![c]) + rest)));
}

pub proof fn lemma_four_parts(
    a: Seq<Piece>,
    b: Seq<Piece>,
    c: Seq<Piece>,
    d: Seq<Piece>,
    rest: Seq<Result<XmlItem, Seq<char>>>,
)
    ensures
        crate::markup::items(a + b + c + d) + rest == crate::markup::items(a) + (
        crate::markup::items(b) + (crate::markup::items(c) + (crate::markup::items(d) + rest))),
{
    crate::markup::lemma_items_concat(a, b);
    crate::markup::lemma_items_concat(a + b, c);
    crate::markup::lemma_items_concat(a + b + c, d);
    lemma_regrouped(
        crate::markup::items(a),
        crate::markup::items(b),
        crate::markup::items(c),
        crate::markup::items(d),
        rest,
    );
}

proof fn lemma_regrouped<T>(a: Seq<T>, b: Seq<T>, c: Seq<T>, d: Seq<T>, rest: Seq<T>)
    ensures
        a + b + c + d + rest == a + (b + (c + (d + rest))),
{
    assert(a + b + c + d + rest =~= a + (b + (c + (d + rest))));
}

/// A piece inside a cell that says nothing of its value changes nothing.
proof fn lemma_passed_over(
    scan: RowState,
    piece: Piece,
    rest: Seq<Result<XmlItem, Seq<char>>>,
    info: BookInfo,
    doubles: crate::xlsx_read_laws::Doubles,
)
    requires
        scan.cell matches Some(cell) && !cell.in_value && !cell.inline,
        piece.is_sound(),
        match piece {
            Piece::Open { name, .. } => name == "f"@,
            Piece::Close(name) => name == "f"@,
            Piece::Text(_) => true,
            _ => false,
        },
    ensures
        crate::xlsx_read_laws::run_with(
            scan,
            crate::markup::items(seq![piece]) + rest,
            info,
            doubles,
        ) == crate::xlsx_read_laws::run_with(scan, rest, info, doubles),
{
    lemma_given_names();
    crate::markup::lemma_piece_tag(piece, XmlKind::End, "c"@);
    crate::markup::lemma_piece_tag(piece, XmlKind::Start, "v"@);
    crate::markup::lemma_piece_tag(piece, XmlKind::Start, "is"@);
    crate::markup::lemma_piece_tag(piece, XmlKind::Start, "t"@);
    crate::markup::lemma_piece_tag(piece, XmlKind::End, "t"@);
    crate::markup::lemma_piece_tag(piece, XmlKind::End, "v"@);
    crate::markup::lemma_piece_tag(piece, XmlKind::End, "is"@);
    let cell = scan.cell->0;
    assert(RowState { cell: Some(cell), ..scan } == scan);
    crate::xlsx_read_laws::lemma_advance(scan, piece, scan, rest, info, doubles);
}

/// The formula of a cell is passed over.
proof fn lemma_formula_read(
    scan: RowState,
    formula: Seq<char>,
    rest: Seq<Result<XmlItem, Seq<char>>>,
    info: BookInfo,
    doubles: crate::xlsx_read_laws::Doubles,
)
    requires
        scan.cell matches Some(cell) && !cell.in_value && !cell.inline,
        crate::markup::is_plain(formula),
    ensures
        crate::xlsx_read_laws::run_with(
            scan,
            crate::markup::items(tagged("f"@, formula)) + rest,
            info,
            doubles,
        ) == crate::xlsx_read_laws::run_with(scan, rest, info, doubles),
{
    lemma_given_names();
    let a = Piece::Open { name: "f"@, attributes: Seq::empty() };
    let b = Piece::Text(formula);
    let c = Piece::Close("f"@);
    lemma_three_items(a, b, c, rest);
    let r2 = crate::markup::items(seq![c]) + rest;
    let r1 = crate::markup::items(seq![b]) + r2;
    assert(a.is_sound());
    lemma_passed_over(scan, a, r1, info, doubles);
    lemma_passed_over(scan, b, r2, info, doubles);
    lemma_passed_over(scan, c, rest, info, doubles);
}

/// The value of a cell is read.
proof fn lemma_value_read(
    scan: RowState,
    text: Seq<char>,
    parsed: Parsed,
    rest: Seq<Result<XmlItem, Seq<char>>>,
    info: BookInfo,
    doubles: crate::xlsx_read_laws::Doubles,
)
    requires
        scan.cell matches Some(cell) && !cell.in_value && !cell.inline,
        crate::markup::is_plain(text),
        match crate::xlsx_scan::stored_value(text, (scan.cell->0).cell_type) {
            Some(found) => found == parsed,
            None => crate::xlsx_scan::numeric_value(
                text,
                doubles(text),
                (scan.cell->0).cell_type,
                (scan.cell->0).style,
                info,
            ) == Ok::<Parsed, Seq<char>>(parsed),
        },
    ensures
        crate::xlsx_read_laws::run_with(
            scan,
            crate::markup::items(tagged("v"@, text)) + rest,
            info,
            doubles,
        ) == crate::xlsx_read_laws::run_with(
            RowState {
                cell: Some(CellState { parsed, in_value: false, text, ..scan.cell->0 }),
                ..scan
            },
            rest,
            info,
            doubles,
        ),
{
    let a = Piece::Open { name: "v"@, attributes: Seq::empty() };
    let b = Piece::Text(text);
    let c = Piece::Close("v"@);
    let cell = scan.cell->0;
    lemma_three_items(a, b, c, rest);
    let r2 = crate::markup::items(seq![c]) + rest;
    let r1 = crate::markup::items(seq![b]) + r2;
    let s1 = RowState {
        cell: Some(CellState { in_value: true, text: Seq::empty(), ..cell }),
        ..scan
    };
    let s2 = RowState { cell: Some(CellState { in_value: true, text, ..cell }), ..scan };
    crate::xlsx_read_laws::lemma_open_value(scan, info.shared);
    crate::xlsx_read_laws::lemma_advance(scan, a, s1, r1, info, doubles);
    crate::xlsx_read_laws::lemma_value_text(s1, text, info.shared);
    crate::xlsx_read_laws::lemma_advance(s1, b, s2, r2, info, doubles);
    crate::xlsx_read_laws::lemma_close_value(s2, info.shared);
    crate::xlsx_read_laws::lemma_take(s2, c, rest, info, doubles);
}

/// A text that stands in a cell itself is read.
proof fn lemma_inline_read(
    scan: RowState,
    text: Seq<char>,
    rest: Seq<Result<XmlItem, Seq<char>>>,
    info: BookInfo,
    doubles: crate::xlsx_read_laws::Doubles,
)
    requires
        scan.cell matches Some(cell) && !cell.in_value && !cell.inline && cell.parsed is Empty,
        crate::markup::is_plain(text),
    ensures
        crate::xlsx_read_laws::run_with(
            scan,
            crate::markup::items(stored_pieces(Stored::Inline(text))) + rest,
            info,
            doubles,
        ) == crate::xlsx_read_laws::run_with(
            RowState {
                cell: Some(
                    CellState {
                        parsed: Parsed::Text(text),
                        inline: false,
                        in_text: false,
                        ..scan.cell->0
                    },
                ),
                ..scan
            },
            rest,
            info,
            doubles,
        ),
{
    lemma_given_names();
    let a = Piece::Open { name: "is"@, attributes: Seq::empty() };
    let b = Piece::Open { name: "t"@, attributes: Seq::empty() };
    let c = Piece::Text(text);
    let d = Piece::Close("t"@);
    let e = Piece::Close("is"@);
    let cell = scan.cell->0;
    let r4 = crate::markup::items(seq![e]) + rest;
    let r3 = crate::markup::items(seq![d]) + r4;
    let r2 = crate::markup::items(seq![c]) + r3;
    let r1 = crate::markup::items(seq![b]) + r2;
    assert(stored_pieces(Stored::Inline(text)) =~= seq![a] + seq![b, c, d] + seq![e]);
    crate::markup::lemma_items_concat(seq![a], seq![b, c, d]);
    crate::markup::lemma_items_concat(seq![a] + seq![b, c, d], seq![e]);
    lemma_three_items(b, c, d, r4);
    assert(crate::markup::items(stored_pieces(Stored::Inline(text))) + rest
        =~= crate::markup::items(seq![a]) + (crate::markup::items(seq![b, c, d]) + r4));
    let s1 = RowState { cell: Some(CellState { inline: true, in_text: false, ..cell }), ..scan };
    let s2 = RowState { cell: Some(CellState { inline: true, in_text: true, ..cell }), ..scan };
    let s3 = RowState {
        cell: Some(
            CellState { inline: true, in_text: true, parsed: Parsed::Text(text), ..cell },
        ),
        ..scan
    };
    let s4 = RowState {
        cell: Some(
            CellState { inline: true, in_text: false, parsed: Parsed::Text(text), ..cell },
        ),
        ..scan
    };
    let s5 = RowState {
        cell: Some(
            CellState { inline: false, in_text: false, parsed: Parsed::Text(text), ..cell },
        ),
        ..scan
    };
    assert(a.is_sound() && b.is_sound() && d.is_sound() && e.is_sound());
    lemma_inline_tag(a);
    lemma_inline_tag(b);
    lemma_inline_tag(d);
    lemma_inline_tag(e);
    crate::xlsx_read_laws::lemma_advance(scan, a, s1, r1, info, doubles);
    crate::xlsx_read_laws::lemma_advance(s1, b, s2, r2, info, doubles);
    crate::text::lemma_bytes_text(text);
    assert(Seq::<char>::empty() + text =~= text);
    crate::xlsx_read_laws::lemma_advance(s2, c, s3, r3, info, doubles);
    crate::xlsx_read_laws::lemma_advance(s3, d, s4, r4, info, doubles);
    crate::xlsx_read_laws::lemma_advance(s4, e, s5, rest, info, doubles);
}

/// Which tags a tag inside a cell is.
pub proof fn lemma_inline_tag(piece: Piece)
    requires
        piece.is_sound(),
        match piece {
            Piece::Open { name, .. } => name == "is"@ || name == "t"@,
            Piece::Close(name) => name == "is"@ || name == "t"@,
            _ => false,
        },
    ensures
        ({
            let item = piece.item();
            let (opens, name) = match piece {
                Piece::Open { name, .. } => (true, name),
                Piece::Close(name) => (false, name),
                _ => (false, Seq::empty()),
            };
            &&& !item.is_tag(XmlKind::End, "c"@)
            &&& !item.is_tag(XmlKind::Start, "v"@)
            &&& !item.is_tag(XmlKind::End, "v"@)
            &&& item.is_tag(XmlKind::Start, "is"@) == (opens && name == "is"@)
            &&& item.is_tag(XmlKind::End, "is"@) == (!opens && name == "is"@)
            &&& item.is_tag(XmlKind::Start, "t"@) == (opens && name == "t"@)
            &&& item.is_tag(XmlKind::End, "t"@) == (!opens && name == "t"@)
        }),
{
    lemma_given_names();
    crate::markup::lemma_piece_tag(piece, XmlKind::End, "c"@);
    crate::markup::lemma_piece_tag(piece, XmlKind::Start, "v"@);
    crate::markup::lemma_piece_tag(piece, XmlKind::Start, "is"@);
    crate::markup::lemma_piece_tag(piece, XmlKind::Start, "t"@);
    crate::markup::lemma_piece_tag(piece, XmlKind::End, "t"@);
    crate::markup::lemma_piece_tag(piece, XmlKind::End, "v"@);
    crate::markup::lemma_piece_tag(piece, XmlKind::End, "is"@);
}

/// The value of a number in a style.
spec fn number_value(style: int, bits: u64, info: BookInfo) -> Plain {
    let format = info.format_of(style);
    if style > 0 && (14 <= format <= 22 || 45 <= format <= 47 || info.date_formats.contains(
        format,
    )) {
        Plain::DateTime(Number::Double(bits))
    } else {
        Plain::Number(Number::Double(bits))
    }
}

/// The value that a cell holds.
spec fn given_value(
    cell: Given,
    info: BookInfo,
    doubles: crate::xlsx_read_laws::Doubles,
) -> Plain {
    match cell.stored {
        Stored::Boolean(text) => Plain::Boolean(text == "1"@ || text == "true"@),
        Stored::Shared(i) => Plain::Text(info.shared[i]),
        Stored::Number(text) => number_value(cell.style, doubles(text)->0, info),
        Stored::Other(_, text) => match doubles(text) {
            Some(bits) => number_value(cell.style, bits, info),
            None => Plain::Text(text),
        },
        Stored::Inline(text) => Plain::Text(text),
        Stored::Blank => Plain::Empty,
    }
}

/// A cell as its tag begins it.
spec fn begun(cell: Given) -> CellState {
    CellState {
        column: if cell.is_named {
            Some(cell.column as u32)
        } else {
            None
        },
        cell_type: stored_as(cell.stored),
        style: cell.style,
        parsed: Parsed::Empty,
        inline: false,
        in_value: false,
        in_text: false,
        text: Seq::empty(),
    }
}

/// The pieces of a cell's value are read, and the cell then has the value.
#[verifier::spinoff_prover]
proof fn lemma_stored_read(
    scan: RowState,
    cell: Given,
    rest: Seq<Result<XmlItem, Seq<char>>>,
    info: BookInfo,
    doubles: crate::xlsx_read_laws::Doubles,
) -> (after: CellState)
    requires
        is_given(cell, info, doubles),
        scan.cell == Some(begun(cell)),
    ensures
        crate::xlsx_read_laws::run_with(
            scan,
            crate::markup::items(stored_pieces(cell.stored)) + rest,
            info,
            doubles,
        ) == crate::xlsx_read_laws::run_with(
            RowState { cell: Some(after), ..scan },
            rest,
            info,
            doubles,
        ),
        after.column == begun(cell).column,
        after.parsed.value(info.shared) == given_value(cell, info, doubles),
{
    lemma_given_names();
    let start = begun(cell);
    match cell.stored {
        Stored::Boolean(text) => {
            let parsed = Parsed::Boolean(text == "1"@ || text == "true"@);
            lemma_value_read(scan, text, parsed, rest, info, doubles);
            CellState { parsed, text, ..start }
        },
        Stored::Shared(i) => {
            let text = crate::text::decimal(i);
            crate::xlsx_markup::lemma_decimal_is_plain(i);
            crate::xlsx_read_laws::lemma_index_bytes(i, usize::MAX);
            let parsed = Parsed::SharedString(i as usize);
            lemma_value_read(scan, text, parsed, rest, info, doubles);
            CellState { parsed, text, ..start }
        },
        Stored::Number(text) => {
            let parsed = crate::xlsx_scan::numeric_value(
                text,
                doubles(text),
                XlsxCellType::Number,
                cell.style,
                info,
            )->Ok_0;
            lemma_value_read(scan, text, parsed, rest, info, doubles);
            CellState { parsed, text, ..start }
        },
        Stored::Other(_, text) => {
            let parsed = crate::xlsx_scan::numeric_value(
                text,
                doubles(text),
                XlsxCellType::Other,
                cell.style,
                info,
            )->Ok_0;
            lemma_value_read(scan, text, parsed, rest, info, doubles);
            CellState { parsed, text, ..start }
        },
        Stored::Inline(text) => {
            lemma_inline_read(scan, text, rest, info, doubles);
            CellState { parsed: Parsed::Text(text), ..start }
        },
        Stored::Blank => {
            assert(crate::markup::items(stored_pieces(cell.stored)) + rest =~= rest);
            start
        },
    }
}

/// The tag of a cell begins it.
proof fn lemma_cell_begun(scan: RowState, cell: Given, shared: Seq<Seq<char>>)
    requires
        scan.in_row,
        scan.cell is None,
        0 <= cell.column < u32::MAX,
        0 <= cell.row < u32::MAX,
        0 <= cell.style <= usize::MAX,
        is_kind(cell.stored),
    ensures
        scan.step(
            (Piece::Open { name: "c"@, attributes: given_attributes(cell) }).item(),
            shared,
        ) == (RowState { cell: Some(begun(cell)), ..scan }, Signal::More),
        scan.step(
            (Piece::Empty {
                name: "c"@,
                attributes: given_attributes(cell),
                spaced: false,
            }).item(),
            shared,
        ) == scan.with_value(begun(cell).column, None),
{
    let open = Piece::Open { name: "c"@, attributes: given_attributes(cell) };
    let empty = Piece::Empty { name: "c"@, attributes: given_attributes(cell), spaced: false };
    lemma_given_names();
    lemma_given_attributes(cell);
    lemma_given_head(cell);
    assert(open.is_sound() && empty.is_sound());
    crate::markup::lemma_piece_tag(open, XmlKind::Start, "row"@);
    crate::markup::lemma_piece_tag(open, XmlKind::End, "row"@);
    crate::markup::lemma_piece_tag(open, XmlKind::Empty, "row"@);
    crate::markup::lemma_piece_tag(open, XmlKind::Start, "c"@);
    crate::markup::lemma_piece_tag(empty, XmlKind::Start, "row"@);
    crate::markup::lemma_piece_tag(empty, XmlKind::End, "row"@);
    crate::markup::lemma_piece_tag(empty, XmlKind::Empty, "row"@);
    crate::markup::lemma_piece_tag(empty, XmlKind::Start, "c"@);
    crate::markup::lemma_piece_tag(empty, XmlKind::Empty, "c"@);
}

/// The row with a cell read.
spec fn with_given(
    row: Seq<Cell>,
    cell: Given,
    info: BookInfo,
    doubles: crate::xlsx_read_laws::Doubles,
) -> Seq<Cell> {
    if cell.stored is Blank && cell.formula is None {
        crate::xlsb_reader::reaching(row, cell.column)
    } else {
        crate::xlsb_reader::with_cell(row, cell.column, given_value(cell, info, doubles))
    }
}

/// A cell is read up to its value.
#[verifier::spinoff_prover]
proof fn lemma_stored_reached(
    scan: RowState,
    cell: Given,
    rest: Seq<Result<XmlItem, Seq<char>>>,
    info: BookInfo,
    doubles: crate::xlsx_read_laws::Doubles,
)
    requires
        scan.in_row,
        scan.cell is None,
        is_given(cell, info, doubles),
        !(cell.stored is Blank && cell.formula is None),
    ensures
        crate::xlsx_read_laws::run_with(
            scan,
            crate::markup::items(given_pieces(cell)) + rest,
            info,
            doubles,
        ) == crate::xlsx_read_laws::run_with(
            RowState { cell: Some(begun(cell)), ..scan },
            crate::markup::items(stored_pieces(cell.stored)) + (crate::markup::items(
                seq![Piece::Close("c"@)],
            ) + rest),
            info,
            doubles,
        ),
{
    let open = Piece::Open { name: "c"@, attributes: given_attributes(cell) };
    let close = Piece::Close("c"@);
    let formula = match cell.formula {
        Some(formula) => tagged("f"@, formula),
        None => Seq::empty(),
    };
    let stored = stored_pieces(cell.stored);
    let r3 = crate::markup::items(seq![close]) + rest;
    let r2 = crate::markup::items(stored) + r3;
    let r1 = crate::markup::items(formula) + r2;
    assert(given_pieces(cell) == seq![open] + formula + stored + seq![close]);
    lemma_four_parts(seq![open], formula, stored, seq![close], rest);
    lemma_cell_begun(scan, cell, info.shared);
    let s1 = RowState { cell: Some(begun(cell)), ..scan };
    crate::xlsx_read_laws::lemma_advance(scan, open, s1, r1, info, doubles);
    match cell.formula {
        Some(text) => {
            lemma_formula_read(s1, text, r2, info, doubles);
        },
        None => {
            assert(r1 =~= r2);
        },
    }
}

/// A cell is read and put at its column.
#[verifier::spinoff_prover]
proof fn lemma_given_read(
    scan: RowState,
    cell: Given,
    rest: Seq<Result<XmlItem, Seq<char>>>,
    info: BookInfo,
    doubles: crate::xlsx_read_laws::Doubles,
) -> (after: RowState)
    requires
        scan.in_row,
        scan.cell is None,
        scan.fields >= 0,
        is_given(cell, info, doubles),
        !cell.is_named ==> scan.next_col == cell.column,
    ensures
        crate::xlsx_read_laws::run_with(
            scan,
            crate::markup::items(given_pieces(cell)) + rest,
            info,
            doubles,
        ) == crate::xlsx_read_laws::run_with(after, rest, info, doubles),
        after.in_row,
        after.cell is None,
        after.fields >= 0,
        after.next_col == cell.column + 1,
        after.row == with_given(scan.row, cell, info, doubles),
{
    lemma_cell_begun(scan, cell, info.shared);
    if cell.stored is Blank && cell.formula is None {
        let piece = Piece::Empty { name: "c"@, attributes: given_attributes(cell), spaced: false };
        let after = scan.with_value(begun(cell).column, None).0;
        crate::xlsx_read_laws::lemma_advance(scan, piece, after, rest, info, doubles);
        after
    } else {
        let close = Piece::Close("c"@);
        let r3 = crate::markup::items(seq![close]) + rest;
        let s1 = RowState { cell: Some(begun(cell)), ..scan };
        lemma_stored_reached(scan, cell, rest, info, doubles);
        let read = lemma_stored_read(s1, cell, r3, info, doubles);
        let s2 = RowState { cell: Some(read), ..s1 };
        assert(s2 == RowState { cell: Some(read), ..scan });
        crate::xlsx_read_laws::lemma_close_cell(s2, info.shared);
        assert(RowState { cell: None, ..s2 } == scan);
        let after = scan.with_value(read.column, Some(read.parsed.value(info.shared))).0;
        crate::xlsx_read_laws::lemma_advance(s2, close, after, rest, info, doubles);
        after
    }
}

/// The row that the first `n` cells make up.
spec fn row_given(
    cells: Seq<Given>,
    n: nat,
    info: BookInfo,
    doubles: crate::xlsx_read_laws::Doubles,
) -> Seq<Cell>
    decreases n,
{
    if n == 0 {
        Seq::empty()
    } else {
        with_given(row_given(cells, (n - 1) as nat, info, doubles), cells[n - 1], info, doubles)
    }
}

/// The first `n` cells of a row are read.
proof fn lemma_cells_read(
    fields: int,
    cells: Seq<Given>,
    n: nat,
    rest: Seq<Result<XmlItem, Seq<char>>>,
    info: BookInfo,
    doubles: crate::xlsx_read_laws::Doubles,
) -> (after: RowState)
    requires
        fields >= 0,
        n <= cells.len(),
        are_given(cells, info, doubles),
    ensures
        crate::xlsx_read_laws::run_with(
            RowState { in_row: true, ..RowState::fresh(fields) },
            crate::markup::items(cells_given(cells, n)) + rest,
            info,
            doubles,
        ) == crate::xlsx_read_laws::run_with(after, rest, info, doubles),
        after.in_row,
        after.cell is None,
        after.fields >= 0,
        after.next_col == if n == 0 {
            0
        } else {
            cells[n - 1].column + 1
        },
        after.row == row_given(cells, n, info, doubles),
    decreases n,
{
    if n == 0 {
        assert(crate::markup::items(cells_given(cells, n)) + rest =~= rest);
        RowState { in_row: true, ..RowState::fresh(fields) }
    } else {
        let m = (n - 1) as nat;
        let cell = cells[n - 1];
        let left = crate::markup::items(given_pieces(cell)) + rest;
        crate::markup::lemma_items_concat(cells_given(cells, m), given_pieces(cell));
        assert(crate::markup::items(cells_given(cells, n)) + rest =~= crate::markup::items(
            cells_given(cells, m),
        ) + left);
        let mid = lemma_cells_read(fields, cells, m, left, info, doubles);
        if m > 0 && !cell.is_named {
            assert(cells[n - 1].column == cells[n - 2].column + 1);
        }
        assert(is_given(cells[n - 1], info, doubles));
        lemma_given_read(mid, cell, rest, info, doubles)
    }
}

/// What the row of cells holds: every cell at its column, and nothing elsewhere.
proof fn lemma_row_holds(
    cells: Seq<Given>,
    n: nat,
    info: BookInfo,
    doubles: crate::xlsx_read_laws::Doubles,
)
    requires
        n <= cells.len(),
        are_given(cells, info, doubles),
    ensures
        ({
            let row = row_given(cells, n, info, doubles);
            &&& forall|i: int|
                0 <= i < n ==> (#[trigger] cells[i]).column < row.len() && row[cells[i].column]
                    == (Cell { value: given_value(cells[i], info, doubles), format: None })
            &&& forall|k: int|
                0 <= k < row.len() && (forall|i: int|
                    0 <= i < n ==> (#[trigger] cells[i]).column != k) ==> #[trigger] row[k]
                    == (Cell { value: Plain::Empty, format: None })
            &&& row.len() > 0 ==> exists|i: int|
                0 <= i < n && row.len() == (#[trigger] cells[i]).column + 1
        }),
    decreases n,
{
    if n > 0 {
        let m = (n - 1) as nat;
        lemma_row_holds(cells, m, info, doubles);
        let before = row_given(cells, m, info, doubles);
        let row = row_given(cells, n, info, doubles);
        let last = cells[n - 1];
        assert(is_given(cells[n - 1], info, doubles));
        let col = last.column;
        if col < before.len() {
            assert(before[col] == (Cell { value: Plain::Empty, format: None }));
        }
        assert(row[col] == (Cell { value: given_value(last, info, doubles), format: None }));
        assert forall|i: int| 0 <= i < n implies (#[trigger] cells[i]).column < row.len()
            && row[cells[i].column] == (Cell {
            value: given_value(cells[i], info, doubles),
            format: None,
        }) by {
            if i < m {
                assert(is_given(cells[i], info, doubles));
                assert(cells[i].column != col);
                assert(row[cells[i].column] == before[cells[i].column]);
            }
        }
        assert forall|k: int|
            0 <= k < row.len() && (forall|i: int|
                0 <= i < n ==> (#[trigger] cells[i]).column != k) implies #[trigger] row[k]
            == (Cell { value: Plain::Empty, format: None }) by {
            assert(cells[n - 1].column != k);
            if k < before.len() {
                assert(before[k] == (Cell { value: Plain::Empty, format: None }));
            }
        }
        if row.len() == before.len() && before.len() > 0 {
            let i = choose|i: int|
                0 <= i < m && before.len() == (#[trigger] cells[i]).column + 1;
            assert(0 <= i < n && row.len() == cells[i].column + 1);
        } else {
            assert(row.len() == cells[n - 1].column + 1);
        }
    }
}

/// A row as it stands in a sheet: the attributes of its tag, and its cells.
pub struct GivenRow {
    pub attributes: Seq<Attr>,
    pub cells: Seq<Given>,
}

/// The pieces of a row.
pub open spec fn row_pieces(row: GivenRow) -> Seq<Piece> {
    crate::markup::element("row"@, row.attributes, cells_given(row.cells, row.cells.len()))
}

/// A row is read to its end.
proof fn lemma_given_row_read(
    fields: int,
    row: GivenRow,
    rest: Seq<Result<XmlItem, Seq<char>>>,
    info: BookInfo,
    doubles: crate::xlsx_read_laws::Doubles,
)
    requires
        fields >= 0,
        crate::markup::are_attributes(row.attributes),
        are_given(row.cells, info, doubles),
    ensures
        crate::xlsx_read_laws::is_line(
            row_pieces(row),
            row_given(row.cells, row.cells.len(), info, doubles),
            fields,
            rest,
            info,
            doubles,
        ),
{
    lemma_given_names();
    let open = Piece::Open { name: "row"@, attributes: row.attributes };
    let close = Piece::Close("row"@);
    let inner = cells_given(row.cells, row.cells.len());
    let fresh = RowState::fresh(fields);
    let scan = RowState { in_row: true, ..fresh };
    let left = crate::markup::items(seq![close]) + rest;
    crate::markup::lemma_items_concat(seq![open], inner);
    crate::markup::lemma_items_concat(seq![open] + inner, seq![close]);
    assert(crate::markup::items(row_pieces(row)) + rest =~= crate::markup::items(seq![open]) + (
    crate::markup::items(inner) + left));
    assert(open.is_sound() && close.is_sound());
    crate::markup::lemma_piece_tag(open, XmlKind::Start, "row"@);
    crate::xlsx_read_laws::lemma_advance(
        fresh,
        open,
        scan,
        crate::markup::items(inner) + left,
        info,
        doubles,
    );
    let last = lemma_cells_read(fields, row.cells, row.cells.len(), left, info, doubles);
    crate::markup::lemma_piece_tag(close, XmlKind::Start, "row"@);
    crate::markup::lemma_piece_tag(close, XmlKind::End, "row"@);
    crate::xlsx_read_laws::lemma_take(last, close, rest, info, doubles);
    assert(last.step(close.item(), info.shared) == (last, Signal::Row));
}

/// Rows of cells that name their columns read back, whatever program wrote them: in
/// the row read, every cell stands at the column that the letters of its reference
/// name, whatever cells stand before it, and a cell that names none stands behind the
/// one before it. Columns without a cell are empty, and the row ends with the cell that
/// stands farthest to the right. A number is a date where its style has one of Excel's
/// own date formats, 14 to 22 and 45 to 47, or one of the workbook's; a truth value is
/// true where it says `1` or `true`; a value stored in another way is a number where it
/// says one, and text where not; the formula of a cell says nothing of its value. Behind
/// the last row the sheet ends.
pub proof fn law_cells_stand_at_their_columns(
    book: XlsxBookState,
    index: int,
    rows: Seq<GivenRow>,
    front: Seq<Piece>,
    back: Seq<Piece>,
    doubles: crate::xlsx_read_laws::Doubles,
    n: nat,
)
    requires
        0 <= index,
        n <= rows.len(),
        crate::xlsx_read_laws::is_quiet(front),
        crate::xlsx_read_laws::is_quiet(back),
        forall|i: int|
            0 <= i < rows.len() ==> crate::markup::are_attributes((#[trigger] rows[i]).attributes)
                && are_given(rows[i].cells, book.info(), doubles),
    ensures
        ({
            let list = Seq::new(rows.len(), |i: int| row_pieces(rows[i]));
            let pieces = front + crate::xlsx_read_laws::joined(list, 0) + back;
            let start = book.begun(index, crate::markup::items(pieces));
            let (after, read) = start.after_reads(doubles, n).row_read(doubles);
            let row = after.scan.row;
            let info = book.info();
            if n < rows.len() {
                let cells = rows[n as int].cells;
                &&& read == Ok::<Progress, Seq<char>>(Progress::Row)
                &&& forall|i: int|
                    0 <= i < cells.len() ==> (#[trigger] cells[i]).column < row.len()
                        && row[cells[i].column].value == {
                        let style = cells[i].style;
                        let dated = 0 < style < info.formats.len() && (14 <= info.formats[style]
                            <= 22 || 45 <= info.formats[style] <= 47 || info.date_formats.contains(
                            info.formats[style],
                        )) || (style > 0 && style >= info.formats.len()
                            && info.date_formats.contains(0));
                        match cells[i].stored {
                            Stored::Boolean(text) => Plain::Boolean(
                                text == "1"@ || text == "true"@,
                            ),
                            Stored::Shared(k) => Plain::Text(info.shared[k]),
                            Stored::Number(text) => if dated {
                                Plain::DateTime(Number::Double(doubles(text)->0))
                            } else {
                                Plain::Number(Number::Double(doubles(text)->0))
                            },
                            Stored::Other(_, text) => if doubles(text) is None {
                                Plain::Text(text)
                            } else if dated {
                                Plain::DateTime(Number::Double(doubles(text)->0))
                            } else {
                                Plain::Number(Number::Double(doubles(text)->0))
                            },
                            Stored::Inline(text) => Plain::Text(text),
                            Stored::Blank => Plain::Empty,
                        }
                    }
                &&& forall|k: int|
                    0 <= k < row.len() && (forall|i: int|
                        0 <= i < cells.len() ==> (#[trigger] cells[i]).column != k)
                        ==> #[trigger] row[k].value == Plain::Empty
                &&& row.len() > 0 ==> exists|i: int|
                    0 <= i < cells.len() && row.len() == (#[trigger] cells[i]).column + 1
            } else {
                &&& read == Ok::<Progress, Seq<char>>(Progress::End)
                &&& row == Seq::<Cell>::empty()
            }
        }),
{
    let info = book.info();
    let list = Seq::new(rows.len(), |i: int| row_pieces(rows[i]));
    let given = Seq::new(
        rows.len(),
        |i: int| row_given(rows[i].cells, rows[i].cells.len(), info, doubles),
    );
    assert forall|i: int, fields: int, rest: Seq<Result<XmlItem, Seq<char>>>|
        0 <= i < list.len() && fields >= 0 implies #[trigger] crate::xlsx_read_laws::is_line(
        list[i],
        given[i],
        fields,
        rest,
        info,
        doubles,
    ) by {
        assert(are_given(rows[i].cells, info, doubles));
        lemma_given_row_read(fields, rows[i], rest, info, doubles);
    }
    crate::xlsx_read_laws::lemma_lines_read(book, index, list, given, front, back, doubles, n);
    if n < rows.len() {
        let cells = rows[n as int].cells;
        assert(are_given(cells, info, doubles));
        lemma_row_holds(cells, cells.len(), info, doubles);
    }
}

/// A cell whose reference names a column beyond those that Excel has, from the 16385th
/// on, is refused.
pub proof fn law_columns_beyond_the_sheet_are_refused(
    scan: RowState,
    cell: Given,
    shared: Seq<Seq<char>>,
)
    requires
        scan.in_row,
        scan.cell is None,
        cell.is_named,
        16_384 <= cell.column < u32::MAX,
        0 <= cell.row < u32::MAX,
        0 <= cell.style <= usize::MAX,
        is_kind(cell.stored),
    ensures
        ({
            let piece = Piece::Empty {
                name: "c"@,
                attributes: given_attributes(cell),
                spaced: false,
            };
            scan.step(piece.item(), shared).1 == Signal::Fault(
                "XLSX column index is outside Excel worksheet bounds"@,
            )
        }),
{
    lemma_cell_begun(scan, cell, shared);
}

} // verus!
