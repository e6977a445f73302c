//! The rows that an update puts into an XLSB worksheet read back.

use vstd::prelude::*;
use crate::biff_reader::{Biff, Step};
use crate::formats::{Cell, Plain};
use crate::number::{Number, NumberTable, RK_LOWER, RK_UPPER};
use crate::xlsb_reader::{BookInfo, XlsbBookState};
use crate::xlsb_update_rows::BinStrings;
use crate::xlsx_update_rows::Looks;

verus! {

/// The text fits into a record.
pub open spec fn is_writable(text: Seq<char>) -> bool {
    12 + 2 * crate::utf16::encode_units(text).len() <= u32::MAX
}

/// The number of a style that the reader finds in a cell.
pub open spec fn style_read(style: int) -> int {
    crate::xlsb_cells::low32(style) as int % 0x100_0000
}

/// How a double in a style reads back: as a date where the number format of the
/// style shows one.
pub open spec fn number_back(info: BookInfo, bits: u64, style: int) -> Plain {
    if crate::xlsb_reader::shows_date(info.format_of(style_read(style)), info.date_formats) {
        Plain::DateTime(Number::Double(bits))
    } else {
        Plain::Number(Number::Double(bits))
    }
}

/// The decoder has read a cell record of `len` bytes at a column in a style.
spec fn has_read(step: Step<bool>, d: Biff, len: int, col: int, style: int) -> bool {
    &&& step.result == Ok::<bool, Seq<char>>(true)
    &&& step.after.wf()
    &&& step.after.buffer == d.buffer
    &&& step.after.pos == d.pos + len
    &&& step.after.read_cell
    &&& step.after.row_index == d.row_index
    &&& step.after.column_num == col
    &&& step.after.xf_index == style_read(style)
}

/// Entering the next record leads to one with this id, whose payload lies between
/// two offsets.
#[verifier::opaque]
spec fn enters(d: Biff, id: u32, start: int, end: int) -> bool {
    &&& d.begin() == (Step::<Option<u32>> {
        after: Biff { pos: end, record_start: start, record_end: end, ..d },
        result: Ok(Some(id)),
    })
    &&& d.pos < start <= end <= d.buffer.len()
}

/// The column and the style of a cell stand at an offset.
spec fn places(buffer: Seq<u8>, start: int, col: int, style: int) -> bool {
    &&& crate::biff12::le_u32_at(buffer, start) == col
    &&& crate::biff12::le_u32_at(buffer, start + 4) == crate::xlsb_cells::low32(style)
}

/// What stands in the payload of a cell record.
proof fn lemma_place(
    d: Biff,
    id: u32,
    col: int,
    style: int,
    value: Seq<u8>,
    bytes: Seq<u8>,
) -> (start: int)
    requires
        d.wf(),
        0 <= col < 16_384,
        8 + value.len() <= u32::MAX,
        bytes == crate::biff12::record(
            id as nat,
            crate::xlsb_update_rows::cell_place(col, style) + value,
        ),
        crate::xlsb_laws::holds(d.buffer, d.pos, bytes),
    ensures
        enters(d, id, start, d.pos + bytes.len()),
        start + 8 + value.len() == d.pos + bytes.len(),
        places(d.buffer, start, col, style),
        crate::xlsb_laws::holds(d.buffer, start + 8, value),
{
    let place = crate::xlsb_update_rows::cell_place(col, style);
    let payload = place + value;
    let start = d.pos + crate::xlsb_part_laws::payload_offset(id as nat, payload.len());
    assert(place.len() == 8);
    crate::xlsb_part_laws::lemma_begin_record(d, id, payload);
    crate::xlsb_laws::lemma_holds_parts(d.buffer, start, place, value);
    let first = crate::big_buffer::le32(crate::xlsb_cells::low32(col));
    let second = crate::big_buffer::le32(crate::xlsb_cells::low32(style));
    crate::xlsb_laws::lemma_holds_parts(d.buffer, start, first, second);
    crate::xlsb_laws::lemma_le32(d.buffer, start, crate::xlsb_cells::low32(col));
    crate::xlsb_laws::lemma_le32(d.buffer, start + 4, crate::xlsb_cells::low32(style));
    reveal(enters);
    start
}

/// What stands in the payload of a cell record with a 32-bit value.
proof fn lemma_number_place(
    d: Biff,
    id: u32,
    col: int,
    style: int,
    raw: u32,
    bytes: Seq<u8>,
) -> (start: int)
    requires
        d.wf(),
        0 <= col < 16_384,
        bytes == crate::biff12::record(
            id as nat,
            crate::xlsb_update_rows::cell_place(col, style) + crate::big_buffer::le32(raw),
        ),
        crate::xlsb_laws::holds(d.buffer, d.pos, bytes),
    ensures
        enters(d, id, start, start + 12),
        start + 12 == d.pos + bytes.len(),
        places(d.buffer, start, col, style),
        crate::biff12::le_u32_at(d.buffer, start + 8) == raw,
{
    let start = lemma_place(d, id, col, style, crate::big_buffer::le32(raw), bytes);
    crate::xlsb_laws::lemma_le32(d.buffer, start + 8, raw);
    start
}

proof fn lemma_rk_read(d: Biff, start: int, raw: u32, col: int, style: int)
    requires
        d.wf(),
        0 <= col < 16_384,
        enters(d, 2, start, start + 12),
        places(d.buffer, start, col, style),
        crate::biff12::le_u32_at(d.buffer, start + 8) == raw,
    ensures
        has_read(d.worksheet_step(), d, start + 12 - d.pos, col, style),
        d.worksheet_step().after.cell_type == 3,
        d.worksheet_step().after.double_val == crate::biff_reader::rk_value(raw),
{
    reveal(enters);
}

/// A packed integer reads back as its double.
proof fn lemma_rk_step(d: Biff, n: int, col: int, style: int, bytes: Seq<u8>)
    requires
        d.wf(),
        0 <= col < 16_384,
        RK_LOWER <= n <= RK_UPPER,
        bytes == crate::xlsb_update_rows::rk_cell(col, style, n),
        crate::xlsb_laws::holds(d.buffer, d.pos, bytes),
    ensures
        has_read(d.worksheet_step(), d, bytes.len() as int, col, style),
        d.worksheet_step().after.cell_type == 3,
        d.worksheet_step().after.double_val == Number::Double(
            crate::number::double_of_int(n) as u64,
        ),
{
    let raw = crate::xlsb_cells::low32(4 * n + 2);
    crate::xlsb_laws::lemma_rk_value(n);
    let start = lemma_number_place(d, 2, col, style, raw, bytes);
    lemma_rk_read(d, start, raw, col, style);
}

proof fn lemma_double_read(d: Biff, start: int, low: u32, high: u32, col: int, style: int)
    requires
        d.wf(),
        0 <= col < 16_384,
        enters(d, 5, start, start + 16),
        places(d.buffer, start, col, style),
        crate::biff12::le_u32_at(d.buffer, start + 8) == low,
        crate::biff12::le_u32_at(d.buffer, start + 12) == high,
    ensures
        has_read(d.worksheet_step(), d, start + 16 - d.pos, col, style),
        d.worksheet_step().after.cell_type == 3,
        d.worksheet_step().after.double_val == Number::Double(
            (low + 0x1_0000_0000 * high) as u64,
        ),
{
    reveal(enters);
}

/// A double reads back.
proof fn lemma_double_step(d: Biff, bits: u64, col: int, style: int, bytes: Seq<u8>)
    requires
        d.wf(),
        0 <= col < 16_384,
        bytes == crate::xlsb_update_rows::double_cell(col, style, bits),
        crate::xlsb_laws::holds(d.buffer, d.pos, bytes),
    ensures
        has_read(d.worksheet_step(), d, bytes.len() as int, col, style),
        d.worksheet_step().after.cell_type == 3,
        d.worksheet_step().after.double_val == Number::Double(bits),
{
    let low = (bits % 0x1_0000_0000) as u32;
    let high = (bits / 0x1_0000_0000) as u32;
    let start = lemma_place(d, 5, col, style, crate::big_buffer::le64(bits), bytes);
    crate::xlsb_laws::lemma_holds_parts(
        d.buffer,
        start + 8,
        crate::big_buffer::le32(low),
        crate::big_buffer::le32(high),
    );
    crate::xlsb_laws::lemma_le32(d.buffer, start + 8, low);
    crate::xlsb_laws::lemma_le32(d.buffer, start + 12, high);
    lemma_double_read(d, start, low, high, col, style);
}

proof fn lemma_bool_read(d: Biff, start: int, b: bool, col: int, style: int)
    requires
        d.wf(),
        0 <= col < 16_384,
        enters(d, 4, start, start + 9),
        places(d.buffer, start, col, style),
        d.buffer[start + 8] == if b {
            1u8
        } else {
            0u8
        },
    ensures
        has_read(d.worksheet_step(), d, start + 9 - d.pos, col, style),
        d.worksheet_step().after.cell_type == 4,
        d.worksheet_step().after.bool_value == b,
{
    reveal(enters);
}

/// A truth value reads back.
proof fn lemma_bool_step(d: Biff, b: bool, col: int, style: int, bytes: Seq<u8>)
    requires
        d.wf(),
        0 <= col < 16_384,
        bytes == crate::xlsb_update_rows::bool_cell(col, style, b),
        crate::xlsb_laws::holds(d.buffer, d.pos, bytes),
    ensures
        has_read(d.worksheet_step(), d, bytes.len() as int, col, style),
        d.worksheet_step().after.cell_type == 4,
        d.worksheet_step().after.bool_value == b,
{
    let value = seq![
        if b {
            1u8
        } else {
            0u8
        },
    ];
    let start = lemma_place(d, 4, col, style, value, bytes);
    crate::xlsb_laws::lemma_holds_byte(d.buffer, start + 8, value, 0);
    lemma_bool_read(d, start, b, col, style);
}

/// The reader finds the texts that the cells point at.
pub open spec fn are_found(strings: BinStrings, info: BookInfo) -> bool {
    strings.part is Some ==> {
        &&& strings.values.is_prefix_of(info.shared)
        &&& info.shared.len() <= 0x1_0000_0000
    }
}

proof fn lemma_index_read(d: Biff, start: int, index: u32, col: int, style: int)
    requires
        d.wf(),
        0 <= col < 16_384,
        enters(d, 7, start, start + 12),
        places(d.buffer, start, col, style),
        crate::biff12::le_u32_at(d.buffer, start + 8) == index,
    ensures
        has_read(d.worksheet_step(), d, start + 12 - d.pos, col, style),
        d.worksheet_step().after.cell_type == 2,
        d.worksheet_step().after.int_value == index,
{
    reveal(enters);
}

proof fn lemma_inline_read(d: Biff, start: int, units: Seq<u16>, col: int, style: int)
    requires
        d.wf(),
        0 <= col < 16_384,
        12 + 2 * units.len() <= u32::MAX,
        enters(d, 6, start, start + 12 + 2 * units.len()),
        places(d.buffer, start, col, style),
        crate::biff12::le_u32_at(d.buffer, start + 8) == units.len(),
        crate::utf16::le_units(
            d.buffer.subrange(start + 12, start + 12 + 2 * units.len()),
        ) == units,
    ensures
        has_read(d.worksheet_step(), d, start + 12 + 2 * units.len() - d.pos, col, style),
        d.worksheet_step().after.cell_type == 5,
        d.worksheet_step().after.string_value == Some(crate::utf16::decode_units(units)),
{
    reveal(enters);
    let b = d.begin().after;
    let s = Biff { read_cell: false, column_num: -1, string_value: None, ..b };
    assert(s.dword(8) == Ok::<u32, Seq<char>>(units.len() as u32));
    assert(s.string(12, units.len() as int) == Ok::<Seq<char>, Seq<char>>(
        crate::utf16::decode_units(units),
    ));
}

/// What stands in a cell record of a text with `n` code units.
proof fn lemma_inline_place(
    d: Biff,
    n: nat,
    text: Seq<u8>,
    col: int,
    style: int,
    bytes: Seq<u8>,
) -> (start: int)
    requires
        d.wf(),
        0 <= col < 16_384,
        text.len() == 2 * n,
        12 + 2 * n <= u32::MAX,
        bytes == crate::biff12::record(
            6,
            crate::xlsb_update_rows::cell_place(col, style) + crate::big_buffer::le32(
                crate::xlsb_cells::low32(n as int),
            ) + text,
        ),
        crate::xlsb_laws::holds(d.buffer, d.pos, bytes),
    ensures
        enters(d, 6, start, start + 12 + 2 * n),
        start + 12 + 2 * n == d.pos + bytes.len(),
        places(d.buffer, start, col, style),
        crate::biff12::le_u32_at(d.buffer, start + 8) == n,
        d.buffer.subrange(start + 12, start + 12 + 2 * n) == text,
{
    let count = crate::xlsb_cells::low32(n as int);
    let first = crate::big_buffer::le32(count);
    let place = crate::xlsb_update_rows::cell_place(col, style);
    assert(first.len() == 4);
    assert(place + first + text =~= place + (first + text));
    let start = lemma_place(d, 6, col, style, first + text, bytes);
    crate::xlsb_laws::lemma_holds_parts(d.buffer, start + 8, first, text);
    crate::xlsb_laws::lemma_le32(d.buffer, start + 8, count);
    start
}

/// A text that stands in the cell reads back.
proof fn lemma_inline_step(d: Biff, text: Seq<char>, col: int, style: int, bytes: Seq<u8>)
    requires
        d.wf(),
        0 <= col < 16_384,
        is_writable(text),
        bytes == crate::biff12::record(
            6,
            crate::xlsb_update_rows::cell_place(col, style) + crate::big_buffer::le32(
                crate::xlsb_cells::low32(crate::utf16::encode_units(text).len() as int),
            ) + crate::utf16::le_bytes(crate::utf16::encode_units(text)),
        ),
        crate::xlsb_laws::holds(d.buffer, d.pos, bytes),
    ensures
        has_read(d.worksheet_step(), d, bytes.len() as int, col, style),
        d.worksheet_step().after.cell_type == 5,
        d.worksheet_step().after.string_value == Some(text),
{
    let units = crate::utf16::encode_units(text);
    let start = lemma_inline_place(
        d,
        units.len(),
        crate::utf16::le_bytes(units),
        col,
        style,
        bytes,
    );
    crate::utf16::law_le_round_trip(units);
    crate::utf16::law_utf16_round_trip(text);
    lemma_inline_read(d, start, units, col, style);
}

/// The index of a shared string reads back.
proof fn lemma_index_step(d: Biff, index: int, col: int, style: int, bytes: Seq<u8>)
    requires
        d.wf(),
        0 <= col < 16_384,
        0 <= index <= u32::MAX,
        bytes == crate::biff12::record(
            7,
            crate::xlsb_update_rows::cell_place(col, style) + crate::big_buffer::le32(
                crate::xlsb_cells::low32(index),
            ),
        ),
        crate::xlsb_laws::holds(d.buffer, d.pos, bytes),
    ensures
        has_read(d.worksheet_step(), d, bytes.len() as int, col, style),
        d.worksheet_step().after.cell_type == 2,
        d.worksheet_step().after.int_value == index,
{
    let raw = crate::xlsb_cells::low32(index);
    let start = lemma_number_place(d, 7, col, style, raw, bytes);
    lemma_index_read(d, start, raw, col, style);
}

/// A text reads back, whether it is shared or stands in the cell.
proof fn lemma_text_step(
    info: BookInfo,
    d: Biff,
    strings: BinStrings,
    text: Seq<char>,
    col: int,
    style: int,
    bytes: Seq<u8>,
)
    requires
        d.wf(),
        0 <= col < 16_384,
        is_writable(text),
        are_found(crate::xlsb_update_rows::text_cell(strings, col, style, text).strings, info),
        bytes == crate::xlsb_update_rows::text_cell(strings, col, style, text).bytes,
        crate::xlsb_laws::holds(d.buffer, d.pos, bytes),
    ensures
        has_read(d.worksheet_step(), d, bytes.len() as int, col, style),
        info.value(d.worksheet_step().after) == Plain::Text(text),
{
    if strings.part is None {
        lemma_inline_step(d, text, col, style, bytes);
    } else {
        crate::string_table::law_index_finds_text(strings.values, text, text);
        let index = crate::string_table::index_for(strings.values, text);
        lemma_index_step(d, index, col, style, bytes);
    }
}

/// The text that a value is written as, if it is written as text.
pub open spec fn written_text(value: Plain, numbers: NumberTable) -> Option<Seq<char>> {
    match value {
        Plain::Empty => Some(Seq::empty()),
        Plain::Text(s) => Some(s),
        Plain::Number(n) => if crate::number::packed_integer(numbers.bits(n)) is None
            && !crate::number::is_finite(numbers.bits(n)) {
            Some(numbers.display(n))
        } else {
            None
        },
        _ => None,
    }
}

/// The texts of a row fit into records.
pub open spec fn row_is_writable(row: Seq<Cell>, numbers: NumberTable) -> bool {
    forall|i: int|
        0 <= i < row.len() ==> (written_text((#[trigger] row[i]).value, numbers) matches Some(text)
            ==> is_writable(text))
}

/// How a value of a column reads back. All numbers are doubles then.
pub open spec fn value_back(
    info: BookInfo,
    value: Plain,
    col: int,
    looks: Looks,
    numbers: NumberTable,
) -> Plain {
    let style = crate::xlsx_styles::data_style(looks.cells, crate::xlsb_cells::low32(col) as int);
    match value {
        Plain::Empty => Plain::Text(Seq::empty()),
        Plain::Integer(n) => number_back(
            info,
            crate::number::double_of_int(n as int) as u64,
            style,
        ),
        Plain::Number(n) => match written_text(value, numbers) {
            Some(text) => Plain::Text(text),
            None => number_back(info, crate::xlsb_laws::bits_back(numbers.bits(n)), style),
        },
        Plain::Boolean(b) => Plain::Boolean(b),
        Plain::DateTime(d) => number_back(
            info,
            numbers.bits(d),
            if style > 0 {
                style
            } else {
                match looks.date {
                    Some(date) => date,
                    None => 0,
                }
            },
        ),
        Plain::Text(s) => Plain::Text(s),
    }
}

/// The row that the first `n` cells read back as.
pub open spec fn cells_back(
    info: BookInfo,
    row: Seq<Cell>,
    n: nat,
    looks: Looks,
    numbers: NumberTable,
) -> Seq<Cell>
    decreases n,
{
    if n == 0 {
        Seq::empty()
    } else {
        let before = cells_back(info, row, (n - 1) as nat, looks, numbers);
        if row[n - 1].value is Empty && row[n - 1].format is None {
            before
        } else {
            crate::xlsb_reader::with_cell(
                before,
                n - 1,
                value_back(info, row[n - 1].value, n - 1, looks, numbers),
            )
        }
    }
}

/// The shared strings have only grown.
pub open spec fn grows(later: BinStrings, earlier: BinStrings) -> bool {
    &&& later.part == earlier.part
    &&& earlier.values.is_prefix_of(later.values)
}

proof fn lemma_grows_trans(a: BinStrings, b: BinStrings, c: BinStrings)
    requires
        grows(b, a),
        grows(c, b),
    ensures
        grows(c, a),
{
    crate::xlsb_laws::lemma_prefix_trans(a.values, b.values, c.values);
}

proof fn lemma_found_before(later: BinStrings, earlier: BinStrings, info: BookInfo)
    requires
        grows(later, earlier),
        are_found(later, info),
    ensures
        are_found(earlier, info),
{
    if later.part is Some {
        crate::xlsb_laws::lemma_prefix_trans(earlier.values, later.values, info.shared);
    }
}

proof fn lemma_text_grows(strings: BinStrings, col: int, style: int, text: Seq<char>)
    ensures
        grows(crate::xlsb_update_rows::text_cell(strings, col, style, text).strings, strings),
{
    crate::string_table::law_index_finds_text(strings.values, text, text);
    assert(strings.values.is_prefix_of(strings.values));
}

proof fn lemma_value_grows(
    strings: BinStrings,
    value: Plain,
    col: int,
    looks: Looks,
    numbers: NumberTable,
)
    ensures
        grows(
            crate::xlsb_update_rows::value_cell(strings, value, col, looks, numbers).strings,
            strings,
        ),
{
    let style = crate::xlsx_styles::data_style(looks.cells, crate::xlsb_cells::low32(col) as int);
    assert(grows(strings, strings));
    match written_text(value, numbers) {
        Some(text) => {
            lemma_text_grows(strings, col, style, text);
        },
        None => {},
    }
}

/// The first cells of a row are written as if they were the whole row.
proof fn lemma_cells_grow(
    strings: BinStrings,
    row: Seq<Cell>,
    k: nat,
    n: nat,
    looks: Looks,
    numbers: NumberTable,
)
    requires
        k <= n,
    ensures
        ({
            let some = crate::xlsb_update_rows::value_cells(strings, row, k, looks, numbers);
            let all = crate::xlsb_update_rows::value_cells(strings, row, n, looks, numbers);
            &&& some.bytes.is_prefix_of(all.bytes)
            &&& grows(all.strings, some.strings)
        }),
    decreases n - k,
{
    let some = crate::xlsb_update_rows::value_cells(strings, row, k, looks, numbers);
    assert(some.bytes.is_prefix_of(some.bytes));
    assert(grows(some.strings, some.strings));
    if k < n {
        let m = (n - 1) as nat;
        let most = crate::xlsb_update_rows::value_cells(strings, row, m, looks, numbers);
        let all = crate::xlsb_update_rows::value_cells(strings, row, n, looks, numbers);
        lemma_cells_grow(strings, row, k, m, looks, numbers);
        lemma_value_grows(most.strings, row[n - 1].value, n - 1, looks, numbers);
        assert(grows(most.strings, most.strings));
        lemma_grows_trans(some.strings, most.strings, all.strings);
        assert(most.bytes.is_prefix_of(all.bytes));
        crate::xlsb_laws::lemma_prefix_trans(some.bytes, most.bytes, all.bytes);
    }
}

proof fn lemma_headers_grow(
    strings: BinStrings,
    headers: Seq<Seq<char>>,
    k: nat,
    n: nat,
    looks: Looks,
)
    requires
        k <= n,
    ensures
        ({
            let some = crate::xlsb_update_rows::header_cells(strings, headers, k, looks);
            let all = crate::xlsb_update_rows::header_cells(strings, headers, n, looks);
            &&& some.bytes.is_prefix_of(all.bytes)
            &&& grows(all.strings, some.strings)
        }),
    decreases n - k,
{
    let some = crate::xlsb_update_rows::header_cells(strings, headers, k, looks);
    assert(some.bytes.is_prefix_of(some.bytes));
    assert(grows(some.strings, some.strings));
    if k < n {
        let m = (n - 1) as nat;
        let most = crate::xlsb_update_rows::header_cells(strings, headers, m, looks);
        let all = crate::xlsb_update_rows::header_cells(strings, headers, n, looks);
        lemma_headers_grow(strings, headers, k, m, looks);
        lemma_text_grows(
            most.strings,
            n - 1,
            crate::xlsx_styles::header_style(looks.cells, n - 1),
            headers[n - 1],
        );
        lemma_grows_trans(some.strings, most.strings, all.strings);
        assert(most.bytes.is_prefix_of(all.bytes));
        crate::xlsb_laws::lemma_prefix_trans(some.bytes, most.bytes, all.bytes);
    }
}

/// Reading one cell record puts its value into the row.
proof fn lemma_read_cell(
    info: BookInfo,
    d: Biff,
    row: Seq<Cell>,
    fields: int,
    len: int,
    col: int,
    style: int,
)
    requires
        d.wf(),
        0 <= col < 16_384,
        has_read(d.worksheet_step(), d, len, col, style),
    ensures
        crate::xlsb_reader::row_from(info, d, row, fields, d.row_index)
            == crate::xlsb_reader::row_from(
            info,
            d.worksheet_step().after,
            crate::xlsb_reader::with_cell(row, col, info.value(d.worksheet_step().after)),
            crate::xlsb_laws::larger(fields, col + 1),
            d.row_index,
        ),
{
}

/// A cell record reads back.
proof fn lemma_value_step(
    info: BookInfo,
    strings: BinStrings,
    value: Plain,
    col: int,
    looks: Looks,
    numbers: NumberTable,
    d: Biff,
    bytes: Seq<u8>,
) -> (style: int)
    requires
        d.wf(),
        0 <= col < 16_384,
        written_text(value, numbers) matches Some(text) ==> is_writable(text),
        are_found(
            crate::xlsb_update_rows::value_cell(strings, value, col, looks, numbers).strings,
            info,
        ),
        bytes == crate::xlsb_update_rows::value_cell(strings, value, col, looks, numbers).bytes,
        crate::xlsb_laws::holds(d.buffer, d.pos, bytes),
    ensures
        has_read(d.worksheet_step(), d, bytes.len() as int, col, style),
        info.value(d.worksheet_step().after) == value_back(info, value, col, looks, numbers),
{
    let style = crate::xlsx_styles::data_style(looks.cells, crate::xlsb_cells::low32(col) as int);
    match value {
        Plain::Empty => {
            lemma_text_step(info, d, strings, Seq::empty(), col, style, bytes);
        },
        Plain::Integer(n) => {
            if RK_LOWER <= n <= RK_UPPER {
                lemma_rk_step(d, n as int, col, style, bytes);
            } else {
                let bits = crate::number::double_of_int(n as int) as u64;
                lemma_double_step(d, bits, col, style, bytes);
            }
        },
        Plain::Number(n) => {
            let bits = numbers.bits(n);
            match crate::number::packed_integer(bits) {
                Some(i) => {
                    lemma_rk_step(d, i, col, style, bytes);
                },
                None => if crate::number::is_finite(bits) {
                    lemma_double_step(d, bits, col, style, bytes);
                } else {
                    lemma_text_step(info, d, strings, numbers.display(n), col, style, bytes);
                },
            }
        },
        Plain::Boolean(b) => {
            lemma_bool_step(d, b, col, style, bytes);
        },
        Plain::DateTime(n) => {
            let dated = if style > 0 {
                style
            } else {
                match looks.date {
                    Some(date) => date,
                    None => 0,
                }
            };
            lemma_double_step(d, numbers.bits(n), col, dated, bytes);
            return dated;
        },
        Plain::Text(s) => {
            lemma_text_step(info, d, strings, s, col, style, bytes);
        },
    }
    style
}

/// Reading the records of the first cells of a row gives the row that they read
/// back as.
proof fn lemma_cells_back(
    info: BookInfo,
    strings: BinStrings,
    row: Seq<Cell>,
    k: nat,
    looks: Looks,
    numbers: NumberTable,
    d: Biff,
    fields: int,
) -> (after: Biff)
    requires
        d.wf(),
        k <= row.len() <= 16_384,
        row_is_writable(row, numbers),
        are_found(
            crate::xlsb_update_rows::value_cells(strings, row, row.len(), looks, numbers).strings,
            info,
        ),
        crate::xlsb_laws::holds(
            d.buffer,
            d.pos,
            crate::xlsb_update_rows::value_cells(strings, row, row.len(), looks, numbers).bytes,
        ),
        fields >= 0,
    ensures
        after.wf(),
        after.buffer == d.buffer,
        after.row_index == d.row_index,
        after.pos == d.pos + crate::xlsb_update_rows::value_cells(
            strings,
            row,
            k,
            looks,
            numbers,
        ).bytes.len(),
        ({
            let back = cells_back(info, row, k, looks, numbers);
            &&& back.len() <= k
            &&& crate::xlsb_reader::row_from(info, d, Seq::empty(), fields, d.row_index)
                == crate::xlsb_reader::row_from(
                info,
                after,
                back,
                crate::xlsb_laws::larger(fields, back.len() as int),
                d.row_index,
            )
        }),
    decreases k,
{
    if k == 0 {
        d
    } else {
        let m = (k - 1) as nat;
        let all = crate::xlsb_update_rows::value_cells(strings, row, row.len(), looks, numbers);
        let some = crate::xlsb_update_rows::value_cells(strings, row, k, looks, numbers);
        let fewer = crate::xlsb_update_rows::value_cells(strings, row, m, looks, numbers);
        let mid = lemma_cells_back(info, strings, row, m, looks, numbers, d, fields);
        if row[k - 1].value is Empty && row[k - 1].format is None {
            mid
        } else {
            let value = row[k - 1].value;
            let here = crate::xlsb_update_rows::value_cell(
                fewer.strings,
                value,
                k - 1,
                looks,
                numbers,
            );
            lemma_cells_grow(strings, row, k, row.len(), looks, numbers);
            crate::xlsb_laws::lemma_holds_prefix(d.buffer, d.pos, some.bytes, all.bytes);
            crate::xlsb_laws::lemma_holds_parts(d.buffer, d.pos, fewer.bytes, here.bytes);
            lemma_found_before(all.strings, here.strings, info);
            let style = lemma_value_step(
                info,
                fewer.strings,
                value,
                k - 1,
                looks,
                numbers,
                mid,
                here.bytes,
            );
            let before = cells_back(info, row, m, looks, numbers);
            lemma_read_cell(
                info,
                mid,
                before,
                crate::xlsb_laws::larger(fields, before.len() as int),
                here.bytes.len() as int,
                k - 1,
                style,
            );
            mid.worksheet_step().after
        }
    }
}

/// Reading the records of the first headers gives their texts.
proof fn lemma_headers_back(
    info: BookInfo,
    strings: BinStrings,
    headers: Seq<Seq<char>>,
    k: nat,
    looks: Looks,
    d: Biff,
    fields: int,
) -> (after: Biff)
    requires
        d.wf(),
        k <= headers.len() <= 16_384,
        forall|i: int| 0 <= i < headers.len() ==> is_writable(#[trigger] headers[i]),
        are_found(
            crate::xlsb_update_rows::header_cells(
                strings,
                headers,
                headers.len(),
                looks,
            ).strings,
            info,
        ),
        crate::xlsb_laws::holds(
            d.buffer,
            d.pos,
            crate::xlsb_update_rows::header_cells(strings, headers, headers.len(), looks).bytes,
        ),
        fields >= 0,
    ensures
        after.wf(),
        after.buffer == d.buffer,
        after.row_index == d.row_index,
        after.pos == d.pos + crate::xlsb_update_rows::header_cells(
            strings,
            headers,
            k,
            looks,
        ).bytes.len(),
        crate::xlsb_reader::row_from(info, d, Seq::empty(), fields, d.row_index)
            == crate::xlsb_reader::row_from(
            info,
            after,
            crate::xlsb_laws::headers_back(headers, k),
            crate::xlsb_laws::larger(fields, k as int),
            d.row_index,
        ),
    decreases k,
{
    if k == 0 {
        assert(crate::xlsb_laws::headers_back(headers, 0) =~= Seq::<Cell>::empty());
        d
    } else {
        let m = (k - 1) as nat;
        let all = crate::xlsb_update_rows::header_cells(strings, headers, headers.len(), looks);
        let some = crate::xlsb_update_rows::header_cells(strings, headers, k, looks);
        let fewer = crate::xlsb_update_rows::header_cells(strings, headers, m, looks);
        let text = headers[k - 1];
        let style = crate::xlsx_styles::header_style(looks.cells, k - 1);
        let here = crate::xlsb_update_rows::text_cell(fewer.strings, k - 1, style, text);
        lemma_headers_grow(strings, headers, k, headers.len(), looks);
        let mid = lemma_headers_back(info, strings, headers, m, looks, d, fields);
        crate::xlsb_laws::lemma_holds_prefix(d.buffer, d.pos, some.bytes, all.bytes);
        crate::xlsb_laws::lemma_holds_parts(d.buffer, d.pos, fewer.bytes, here.bytes);
        lemma_found_before(all.strings, here.strings, info);
        lemma_text_step(info, mid, fewer.strings, text, k - 1, style, here.bytes);
        let row = crate::xlsb_laws::headers_back(headers, m);
        lemma_read_cell(
            info,
            mid,
            row,
            crate::xlsb_laws::larger(fields, k - 1),
            here.bytes.len() as int,
            k - 1,
            style,
        );
        assert(crate::xlsb_reader::with_cell(row, k - 1, Plain::Text(text))
            =~= crate::xlsb_laws::headers_back(headers, k));
        mid.worksheet_step().after
    }
}

/// New rows for a worksheet: the shared strings before them, their headers, if
/// there are any, the rows, the number of the last column, and how cells look.
pub struct NewRows {
    pub strings: BinStrings,
    pub headers: Option<Seq<Seq<char>>>,
    pub rows: Seq<Seq<Cell>>,
    pub last_col: int,
    pub looks: Looks,
    pub numbers: NumberTable,
}

impl NewRows {
    /// The number of the first row.
    pub open spec fn first(self) -> int {
        if self.headers is Some {
            1
        } else {
            0
        }
    }

    /// The number of lines.
    pub open spec fn lines(self) -> int {
        self.first() + self.rows.len()
    }

    /// Excel has room for the lines, and the texts fit into records.
    pub open spec fn fits(self) -> bool {
        &&& self.lines() <= 1_048_576
        &&& self.headers matches Some(h) ==> {
            &&& h.len() <= 16_384
            &&& forall|i: int| 0 <= i < h.len() ==> is_writable(#[trigger] h[i])
        }
        &&& forall|i: int|
            0 <= i < self.rows.len() ==> (#[trigger] self.rows[i]).len() <= 16_384
                && row_is_writable(self.rows[i], self.numbers)
    }

    /// What the header row is written as.
    pub open spec fn header(self) -> crate::xlsb_update_rows::Packed {
        crate::xlsb_update_rows::header_row(
            self.strings,
            self.headers,
            self.last_col,
            self.looks,
        )
    }

    /// What the first `n` rows are written as.
    pub open spec fn body(self, n: int) -> crate::xlsb_update_rows::Packed {
        crate::xlsb_update_rows::value_rows(
            self.header().strings,
            self.rows,
            n as nat,
            self.first(),
            self.last_col,
            self.looks,
            self.numbers,
        )
    }

    /// The bytes of the first `i` lines.
    pub open spec fn bytes(self, i: int) -> Seq<u8> {
        if i < self.first() {
            Seq::empty()
        } else {
            self.header().bytes + self.body(i - self.first()).bytes
        }
    }

    /// What the cells of a line are written as.
    pub open spec fn line_cells(self, i: int) -> crate::xlsb_update_rows::Packed {
        if i < self.first() {
            crate::xlsb_update_rows::header_cells(
                self.strings,
                self.headers->0,
                (self.headers->0).len(),
                self.looks,
            )
        } else {
            let r = i - self.first();
            crate::xlsb_update_rows::value_cells(
                self.body(r).strings,
                self.rows[r],
                self.rows[r].len(),
                self.looks,
                self.numbers,
            )
        }
    }

    /// The header of a line.
    #[verifier::opaque]
    pub open spec fn line_header(self, i: int) -> Seq<u8> {
        crate::xlsb_cells::row_header(i as u32, 0, self.last_col)
    }

    /// The row that a line reads back as.
    pub open spec fn line_back(self, info: BookInfo, i: int) -> Seq<Cell> {
        if i < self.first() {
            crate::xlsb_laws::headers_back(self.headers->0, (self.headers->0).len())
        } else {
            let r = i - self.first();
            cells_back(info, self.rows[r], self.rows[r].len(), self.looks, self.numbers)
        }
    }
}

/// The first rows are written as if they were all.
proof fn lemma_rows_grow(new: NewRows, k: int, n: int)
    requires
        0 <= k <= n <= new.rows.len(),
    ensures
        new.body(k).bytes.is_prefix_of(new.body(n).bytes),
        grows(new.body(n).strings, new.body(k).strings),
    decreases n - k,
{
    let some = new.body(k);
    assert(some.bytes.is_prefix_of(some.bytes));
    assert(grows(some.strings, some.strings));
    if k < n {
        let most = new.body(n - 1);
        let all = new.body(n);
        let row = new.rows[n - 1];
        lemma_rows_grow(new, k, n - 1);
        lemma_cells_grow(most.strings, row, 0, row.len(), new.looks, new.numbers);
        lemma_grows_trans(some.strings, most.strings, all.strings);
        assert(most.bytes.is_prefix_of(all.bytes));
        crate::xlsb_laws::lemma_prefix_trans(some.bytes, most.bytes, all.bytes);
    }
}

/// A row is its header and its cells.
proof fn lemma_row_bytes(new: NewRows, i: int, cells: Seq<u8>)
    requires
        0 <= i <= 1_048_576,
    ensures
        crate::xlsb_update_rows::row_bytes(i, new.last_col, cells) == new.line_header(i) + cells,
        new.line_header(i).len() == 27,
{
    reveal(NewRows::line_header);
    assert(crate::xlsb_cells::low32(i) == i as u32);
    assert(new.line_header(i).len() == 27);
}

proof fn lemma_behind<T>(a: Seq<T>, b: Seq<T>, c: Seq<T>, d: Seq<T>)
    ensures
        a + (b + (c + d)) == a + b + c + d,
{
    assert(a + (b + (c + d)) =~= a + b + c + d);
}

proof fn lemma_prefix_behind<T>(a: Seq<T>, b: Seq<T>, c: Seq<T>)
    requires
        b.is_prefix_of(c),
    ensures
        (a + b).is_prefix_of(a + c),
{
    assert(b =~= c.take(b.len() as int));
    assert(a + b =~= (a + c).take((a + b).len() as int));
}

/// A line stands behind the lines before it, with a header in front.
proof fn lemma_line(new: NewRows, i: int)
    requires
        new.fits(),
        0 <= i < new.lines(),
    ensures
        new.bytes(i + 1) == new.bytes(i) + new.line_header(i) + new.line_cells(i).bytes,
        new.bytes(i + 1).is_prefix_of(new.bytes(new.lines())),
        grows(new.body(new.rows.len() as int).strings, new.line_cells(i).strings),
{
    let n = new.rows.len() as int;
    let r = i - new.first();
    let cells = new.line_cells(i).bytes;
    lemma_row_bytes(new, i, cells);
    lemma_rows_grow(new, r + 1, n);
    lemma_prefix_behind(new.header().bytes, new.body(r + 1).bytes, new.body(n).bytes);
    if r < 0 {
        let none = Seq::<u8>::empty();
        assert(new.body(0).bytes == none);
        assert(new.header().bytes == new.line_header(0) + cells);
        assert(new.line_header(0) + cells + none =~= none + new.line_header(0) + cells);
    } else {
        assert((new.first() + (r + 1) - 1) == i);
        lemma_behind(new.header().bytes, new.body(r).bytes, new.line_header(i), cells);
    }
}

/// Reading the cells of a line gives the row that it reads back as.
proof fn lemma_line_back(new: NewRows, info: BookInfo, i: int, d: Biff, fields: int) -> (after: Biff)
    requires
        new.fits(),
        are_found(new.body(new.rows.len() as int).strings, info),
        0 <= i < new.lines(),
        d.wf(),
        crate::xlsb_laws::holds(d.buffer, d.pos, new.line_cells(i).bytes),
        fields >= 0,
    ensures
        after.wf(),
        after.buffer == d.buffer,
        after.row_index == d.row_index,
        after.pos == d.pos + new.line_cells(i).bytes.len(),
        ({
            let back = new.line_back(info, i);
            crate::xlsb_reader::row_from(info, d, Seq::empty(), fields, d.row_index)
                == crate::xlsb_reader::row_from(
                info,
                after,
                back,
                crate::xlsb_laws::larger(fields, back.len() as int),
                d.row_index,
            )
        }),
{
    lemma_line(new, i);
    lemma_found_before(
        new.body(new.rows.len() as int).strings,
        new.line_cells(i).strings,
        info,
    );
    if i < new.first() {
        let h = new.headers->0;
        lemma_headers_back(info, new.strings, h, h.len(), new.looks, d, fields)
    } else {
        let r = i - new.first();
        let row = new.rows[r];
        lemma_cells_back(
            info,
            new.body(r).strings,
            row,
            row.len(),
            new.looks,
            new.numbers,
            d,
            fields,
        )
    }
}

/// The reader of a sheet stands behind the header of line `i`.
spec fn stands_in_line(
    state: XlsbBookState,
    new: NewRows,
    info: BookInfo,
    head: Seq<u8>,
    tail: Seq<u8>,
    i: int,
) -> bool {
    &&& state.info() == info
    &&& !state.eof
    &&& state.pending == i
    &&& state.fields >= 0
    &&& state.sheet matches Some(d) && {
        &&& d.wf()
        &&& d.buffer == head + new.bytes(new.lines()) + tail
        &&& d.pos == head.len() + new.bytes(i).len() + 27
        &&& d.row_index == i
    }
}

/// Where a line stands in the bytes of its sheet.
proof fn lemma_line_place(new: NewRows, head: Seq<u8>, tail: Seq<u8>, i: int)
    requires
        new.fits(),
        0 <= i < new.lines(),
    ensures
        ({
            let buffer = head + new.bytes(new.lines()) + tail;
            let at = head.len() + new.bytes(i).len() as int;
            &&& crate::xlsb_laws::holds(buffer, at, new.line_header(i))
            &&& crate::xlsb_laws::holds(buffer, at + 27, new.line_cells(i).bytes)
            &&& new.bytes(i + 1).len() == new.bytes(i).len() + 27 + new.line_cells(i).bytes.len()
        }),
{
    let all = new.bytes(new.lines());
    let buffer = head + all + tail;
    let header = new.line_header(i);
    let cells = new.line_cells(i).bytes;
    let at = head.len() + new.bytes(i).len() as int;
    lemma_line(new, i);
    lemma_row_bytes(new, i, cells);
    lemma_within(head, new.bytes(i + 1), all, tail);
    assert(new.bytes(i) + header + cells =~= new.bytes(i) + (header + cells));
    crate::xlsb_laws::lemma_holds_parts(
        buffer,
        head.len() as int,
        new.bytes(i),
        header + cells,
    );
    crate::xlsb_laws::lemma_holds_parts(buffer, at, header, cells);
}

proof fn lemma_within(head: Seq<u8>, some: Seq<u8>, all: Seq<u8>, tail: Seq<u8>)
    requires
        some.is_prefix_of(all),
    ensures
        crate::xlsb_laws::holds(head + all + tail, head.len() as int, some),
{
    let buffer = head + all + tail;
    assert(some =~= all.take(some.len() as int));
    assert(buffer.subrange(head.len() as int, head.len() + some.len() as int) =~= some);
}

/// What reading the header of a line leads to.
proof fn lemma_header_step(new: NewRows, d: Biff, i: int)
    requires
        d.wf(),
        0 <= i <= 1_048_576,
        crate::xlsb_laws::holds(d.buffer, d.pos, new.line_header(i)),
    ensures
        ({
            let step = d.worksheet_step();
            &&& step.result == Ok::<bool, Seq<char>>(true)
            &&& step.after.wf()
            &&& step.after.buffer == d.buffer
            &&& step.after.pos == d.pos + 27
            &&& !step.after.read_cell
            &&& step.after.row_index == i
        }),
{
    reveal(NewRows::line_header);
    crate::xlsb_laws::lemma_row_header_step(d, i as u32, new.last_col);
}

/// One more row is read.
#[verifier::spinoff_prover]
#[verifier::rlimit(40)]
proof fn lemma_read_line(
    state: XlsbBookState,
    new: NewRows,
    info: BookInfo,
    head: Seq<u8>,
    tail: Seq<u8>,
    i: int,
)
    requires
        new.fits(),
        are_found(new.body(new.rows.len() as int).strings, info),
        crate::xlsb_laws::is_quiet(tail),
        0 <= i < new.lines(),
        stands_in_line(state, new, info, head, tail, i),
    ensures
        state.advanced().1 == Ok::<bool, Seq<char>>(true),
        state.advanced().0.row == new.line_back(info, i),
        i + 1 < new.lines() ==> stands_in_line(state.advanced().0, new, info, head, tail, i + 1),
        i + 1 == new.lines() ==> state.advanced().0.eof,
{
    let d = state.sheet->0;
    let all = new.bytes(new.lines());
    lemma_line_place(new, head, tail, i);
    let after = lemma_line_back(new, info, i, d, state.fields);
    let back = new.line_back(info, i);
    let fields = crate::xlsb_laws::larger(state.fields, back.len() as int);
    if i + 1 < new.lines() {
        lemma_line_place(new, head, tail, i + 1);
        lemma_header_step(new, after, i + 1);
    } else {
        assert(d.buffer == (head + all) + tail);
        crate::xlsb_laws::lemma_quiet_tail(info, after, head + all, tail, back, fields);
    }
}

/// After some rows the reader stands in the next line.
proof fn lemma_reads(
    start: XlsbBookState,
    new: NewRows,
    info: BookInfo,
    head: Seq<u8>,
    tail: Seq<u8>,
    n: nat,
)
    requires
        new.fits(),
        are_found(new.body(new.rows.len() as int).strings, info),
        crate::xlsb_laws::is_quiet(tail),
        stands_in_line(start, new, info, head, tail, 0),
        n < new.lines(),
    ensures
        stands_in_line(
            crate::xlsb_laws::after_reads(start, n),
            new,
            info,
            head,
            tail,
            n as int,
        ),
    decreases n,
{
    if n > 0 {
        let m = (n - 1) as nat;
        lemma_reads(start, new, info, head, tail, m);
        lemma_read_line(
            crate::xlsb_laws::after_reads(start, m),
            new,
            info,
            head,
            tail,
            n - 1,
        );
    }
}

/// Nothing stands in front of the first line.
proof fn lemma_starts(new: NewRows)
    ensures
        new.bytes(0).len() == 0,
{
    assert(new.body(0).bytes == Seq::<u8>::empty());
    if new.headers is None {
        assert(new.header().bytes == Seq::<u8>::empty());
    }
}

/// A decoder in front of a row header finds its row.
proof fn lemma_row_found(d: Biff, row: int)
    requires
        d.wf(),
        row >= 0,
        d.row_index == -1,
        d.worksheet_step().result == Ok::<bool, Seq<char>>(true),
        d.worksheet_step().after.wf(),
        d.worksheet_step().after.row_index == row,
    ensures
        crate::xlsb_reader::first_row(d) == Ok::<(Biff, bool), Seq<char>>(
            (d.worksheet_step().after, true),
        ),
{
}

/// The records in front of the rows are passed over.
proof fn lemma_front_passed(head: Seq<u8>, all: Seq<u8>, tail: Seq<u8>) -> (d: Biff)
    requires
        crate::xlsb_laws::is_quiet(head),
        head.len() + all.len() + tail.len() <= usize::MAX,
    ensures
        d.wf(),
        d.buffer == head + all + tail,
        d.pos == head.len(),
        d.row_index == -1,
        crate::xlsb_reader::first_row(crate::biff_reader::decoder_at_start(head + all + tail))
            == crate::xlsb_reader::first_row(d),
{
    assert(head + all + tail =~= head + (all + tail));
    crate::xlsb_laws::lemma_quiet_head(
        crate::biff_reader::decoder_at_start(head + all + tail),
        head,
        all + tail,
    )
}

/// The first row of the sheet is found behind its head.
#[verifier::spinoff_prover]
proof fn lemma_first_found(new: NewRows, head: Seq<u8>, tail: Seq<u8>) -> (d: Biff)
    requires
        new.fits(),
        new.lines() > 0,
        crate::xlsb_laws::is_quiet(head),
        head.len() + new.bytes(new.lines()).len() + tail.len() <= usize::MAX,
    ensures
        crate::xlsb_reader::first_row(
            crate::biff_reader::decoder_at_start(head + new.bytes(new.lines()) + tail),
        ) == Ok::<(Biff, bool), Seq<char>>((d, true)),
        d.wf(),
        d.buffer == head + new.bytes(new.lines()) + tail,
        d.pos == head.len() + 27,
        d.row_index == 0,
{
    lemma_line_place(new, head, tail, 0);
    lemma_starts(new);
    let d1 = lemma_front_passed(head, new.bytes(new.lines()), tail);
    lemma_header_step(new, d1, 0);
    lemma_row_found(d1, 0);
    d1.worksheet_step().after
}

/// Entering the sheet leads into its first line.
proof fn lemma_entered(
    book: XlsbBookState,
    index: int,
    new: NewRows,
    head: Seq<u8>,
    tail: Seq<u8>,
)
    requires
        0 <= index < book.sheets.len(),
        new.fits(),
        new.lines() > 0,
        crate::xlsb_laws::is_quiet(head),
        head.len() + new.bytes(new.lines()).len() + tail.len() <= usize::MAX,
    ensures
        ({
            let (start, entered) = book.begun(index, head + new.bytes(new.lines()) + tail);
            &&& entered == Ok::<bool, Seq<char>>(true)
            &&& stands_in_line(start, new, book.info(), head, tail, 0)
        }),
{
    lemma_starts(new);
    let d = lemma_first_found(new, head, tail);
}

/// Rows that an update has put into a worksheet read back: entering the sheet tells
/// whether it has a line, every read gives the next line, first the headers, then
/// the rows, each cell as [`value_back`] says, and behind the last line the sheet
/// ends. The bytes around the rows have to be records that are neither rows nor
/// cells, and the shared strings those that the update has given out.
pub proof fn law_replaced_rows_read_back(
    book: XlsbBookState,
    index: int,
    new: NewRows,
    head: Seq<u8>,
    tail: Seq<u8>,
    n: nat,
)
    requires
        0 <= index < book.sheets.len(),
        new.fits(),
        are_found(
            crate::xlsb_update_rows::sheet_rows(
                new.strings,
                new.headers,
                new.rows,
                new.last_col,
                new.looks,
                new.numbers,
            ).strings,
            book.info(),
        ),
        crate::xlsb_laws::is_quiet(head),
        crate::xlsb_laws::is_quiet(tail),
        head.len() + new.bytes(new.lines()).len() + tail.len() <= usize::MAX,
        n <= new.lines(),
    ensures
        ({
            let rows = crate::xlsb_update_rows::sheet_rows(
                new.strings,
                new.headers,
                new.rows,
                new.last_col,
                new.looks,
                new.numbers,
            );
            let (start, entered) = book.begun(index, head + rows.bytes + tail);
            let before = crate::xlsb_laws::after_reads(start, n);
            let (after, read) = before.advanced();
            &&& entered == Ok::<bool, Seq<char>>(new.lines() > 0)
            &&& if n < new.lines() {
                read == Ok::<bool, Seq<char>>(true) && after.row == new.line_back(
                    book.info(),
                    n as int,
                )
            } else {
                read == Ok::<bool, Seq<char>>(false) && after == before
            }
        }),
{
    let info = book.info();
    let bytes = head + new.bytes(new.lines()) + tail;
    if new.lines() == 0 {
        lemma_starts(new);
        assert(bytes =~= head + tail);
        crate::xlsb_laws::lemma_empty_sheet(book, index, head, tail);
    } else {
        lemma_entered(book, index, new, head, tail);
        let (start, _) = book.begun(index, bytes);
        let m = if n < new.lines() {
            n
        } else {
            (n - 1) as nat
        };
        lemma_reads(start, new, info, head, tail, m);
        lemma_read_line(crate::xlsb_laws::after_reads(start, m), new, info, head, tail, m as int);
    }
}

} // verus!
