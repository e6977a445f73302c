//! What holds of the XLSB writer and the XLSB reader together.

use vstd::prelude::*;
use crate::biff_reader::{Biff, Step};
use crate::formats::{Cell, Plain};
use crate::number::{Number, NumberTable};
use crate::sheet_tables::Tables;
use crate::xlsb_reader::BookInfo;
use crate::xlsb_writer::{XlsbBook, XlsbSheetOptions};

verus! {

/// The bytes stand in the buffer from `at` on.
pub open spec fn holds(buffer: Seq<u8>, at: int, bytes: Seq<u8>) -> bool {
    0 <= at && at + bytes.len() <= buffer.len() && buffer.subrange(at, at + bytes.len()) == bytes
}

/// A byte of what stands in a buffer.
pub proof fn lemma_holds_byte(buffer: Seq<u8>, at: int, bytes: Seq<u8>, i: int)
    requires
        holds(buffer, at, bytes),
        0 <= i < bytes.len(),
    ensures
        buffer[at + i] == bytes[i],
{
    assert(buffer.subrange(at, at + bytes.len())[i] == buffer[at + i]);
}

/// The parts of what stands in a buffer.
pub proof fn lemma_holds_parts(buffer: Seq<u8>, at: int, a: Seq<u8>, b: Seq<u8>)
    requires
        holds(buffer, at, a + b),
    ensures
        holds(buffer, at, a),
        holds(buffer, at + a.len(), b),
{
    let both = buffer.subrange(at, at + (a + b).len());
    assert(buffer.subrange(at, at + a.len()) =~= both.take(a.len() as int));
    assert(both.take(a.len() as int) =~= a);
    assert(buffer.subrange(at + a.len(), at + a.len() + b.len()) =~= both.skip(a.len() as int));
    assert(both.skip(a.len() as int) =~= b);
}

/// A number written low byte first reads back.
pub proof fn lemma_le32(buffer: Seq<u8>, at: int, n: u32)
    requires
        holds(buffer, at, crate::big_buffer::le32(n)),
    ensures
        crate::biff12::le_u32_at(buffer, at) == n,
{
    let bytes = crate::big_buffer::le32(n);
    lemma_holds_byte(buffer, at, bytes, 0);
    lemma_holds_byte(buffer, at, bytes, 1);
    lemma_holds_byte(buffer, at, bytes, 2);
    lemma_holds_byte(buffer, at, bytes, 3);
    assert(n == n % 256 + 0x100 * (n / 0x100 % 256) + 0x1_0000 * (n / 0x1_0000 % 256) + 0x100_0000
        * (n / 0x100_0000));
}

/// What a record with a one-byte id and a one-byte length leads to.
proof fn lemma_begin(d: Biff, id: u8, payload: Seq<u8>)
    requires
        d.wf(),
        id < 128,
        payload.len() < 128,
        holds(d.buffer, d.pos, seq![id, payload.len() as u8] + payload),
    ensures
        d.begin() == (Step::<Option<u32>> {
            after: Biff {
                pos: d.pos + 2 + payload.len(),
                record_start: d.pos + 2,
                record_end: d.pos + 2 + payload.len(),
                ..d
            },
            result: Ok(Some(id as u32)),
        }),
        holds(d.buffer, d.pos + 2, payload),
{
    let head = seq![id, payload.len() as u8];
    lemma_holds_parts(d.buffer, d.pos, head, payload);
    lemma_holds_byte(d.buffer, d.pos, head, 0);
    lemma_holds_byte(d.buffer, d.pos, head, 1);
}

/// What reading a row header leads to.
pub proof fn lemma_row_header_step(d: Biff, row: u32, columns: int)
    requires
        d.wf(),
        holds(d.buffer, d.pos, crate::xlsb_cells::row_header(row, 0, columns)),
    ensures
        ({
            let step = d.worksheet_step();
            &&& step.result == Ok::<bool, Seq<char>>(true)
            &&& step.after.wf()
            &&& step.after.buffer == d.buffer
            &&& step.after.pos == d.pos + 27
            &&& !step.after.read_cell
            &&& step.after.row_index == crate::biff_reader::signed32(row)
        }),
{
    let rest = crate::big_buffer::le32(0) + seq![44u8, 1u8, 0u8, 0u8, 0u8, 1u8, 0u8, 0u8, 0u8]
        + crate::big_buffer::le32(crate::xlsb_cells::low32(0)) + crate::big_buffer::le32(
        crate::xlsb_cells::low32(columns),
    );
    let payload = crate::big_buffer::le32(row) + rest;
    assert(crate::xlsb_cells::row_header(row, 0, columns) =~= seq![0u8, 25u8] + payload);
    lemma_begin(d, 0, payload);
    lemma_holds_parts(d.buffer, d.pos + 2, crate::big_buffer::le32(row), rest);
    lemma_le32(d.buffer, d.pos + 2, row);
}

/// The decoder has read a cell record of `len` bytes at a column in a style.
pub open spec fn has_read_cell(step: Step<bool>, d: Biff, len: int, col: int, style: u8) -> bool {
    &&& step.result == Ok::<bool, Seq<char>>(true)
    &&& step.after.wf()
    &&& step.after.buffer == d.buffer
    &&& step.after.pos == d.pos + len
    &&& step.after.read_cell
    &&& step.after.row_index == d.row_index
    &&& step.after.column_num == col
    &&& step.after.xf_index == style
}

/// What reading a cell record leads to, its value left aside.
proof fn lemma_cell_step(d: Biff, id: u8, col: int, style: u8, value: Seq<u8>)
    requires
        d.wf(),
        0 <= col < 16_384,
        id == 2 && value.len() == 4 || id == 5 && value.len() == 8 || id == 4 && value.len() == 1
            || id == 7 && value.len() == 4,
        holds(
            d.buffer,
            d.pos,
            seq![id, (8 + value.len()) as u8] + crate::xlsb_cells::cell_start(col, style) + value,
        ),
    ensures
        has_read_cell(d.worksheet_step(), d, 10 + value.len() as int, col, style),
        holds(d.buffer, d.pos + 10, value),
        d.begin().after.record_start == d.pos + 2,
        d.begin().after.record_end == d.pos + 10 + value.len(),
        d.begin().after.buffer == d.buffer,
        d.begin().result == Ok::<Option<u32>, Seq<char>>(Some(id as u32)),
{
    let start = crate::xlsb_cells::cell_start(col, style);
    let payload = start + value;
    assert(seq![id, (8 + value.len()) as u8] + start + value =~= seq![id, payload.len() as u8]
        + payload);
    lemma_begin(d, id, payload);
    lemma_holds_parts(d.buffer, d.pos + 2, start, value);
    lemma_holds_parts(
        d.buffer,
        d.pos + 2,
        crate::big_buffer::le32(crate::xlsb_cells::low32(col)),
        seq![style, 0u8, 0u8, 0u8],
    );
    lemma_le32(d.buffer, d.pos + 2, crate::xlsb_cells::low32(col));
    lemma_holds_byte(d.buffer, d.pos + 6, seq![style, 0u8, 0u8, 0u8], 0);
    lemma_holds_byte(d.buffer, d.pos + 6, seq![style, 0u8, 0u8, 0u8], 1);
    lemma_holds_byte(d.buffer, d.pos + 6, seq![style, 0u8, 0u8, 0u8], 2);
    lemma_holds_byte(d.buffer, d.pos + 6, seq![style, 0u8, 0u8, 0u8], 3);
    assert(crate::biff12::le_u32_at(d.buffer, d.pos + 6) == style);
}

/// The number that a packed integer holds.
pub proof fn lemma_rk_value(val: int)
    requires
        crate::number::RK_LOWER <= val <= crate::number::RK_UPPER,
    ensures
        crate::biff_reader::rk_value(crate::xlsb_cells::low32(4 * val + 2)) == Number::Double(
            crate::number::double_of_int(val) as u64,
        ),
{
    let raw = crate::xlsb_cells::low32(4 * val + 2);
    assert(crate::biff_reader::signed32(raw) == 4 * val + 2);
    assert((4 * val + 2) / 4 == val);
    assert(raw % 4 == 2);
}

/// A packed integer reads back as its double.
#[verifier::spinoff_prover]
proof fn lemma_rk_step(d: Biff, val: int, col: int, style: u8)
    requires
        d.wf(),
        0 <= col < 16_384,
        crate::number::RK_LOWER <= val <= crate::number::RK_UPPER,
        holds(d.buffer, d.pos, crate::xlsb_cells::rk_cell(val, col, style)),
    ensures
        has_read_cell(d.worksheet_step(), d, 14, col, style),
        d.worksheet_step().after.cell_type == 3,
        d.worksheet_step().after.double_val == Number::Double(
            crate::number::double_of_int(val) as u64,
        ),
{
    let raw = crate::xlsb_cells::low32(4 * val + 2);
    let number = crate::biff_reader::rk_value(raw);
    lemma_rk_value(val);
    lemma_cell_step(d, 2, col, style, crate::big_buffer::le32(raw));
    lemma_le32(d.buffer, d.pos + 10, raw);
    assert(d.worksheet_step().after.double_val == number);
}

/// A double reads back.
proof fn lemma_double_step(d: Biff, bits: u64, col: int, style: u8)
    requires
        d.wf(),
        0 <= col < 16_384,
        holds(d.buffer, d.pos, crate::xlsb_cells::double_cell(bits, col, style)),
    ensures
        has_read_cell(d.worksheet_step(), d, 18, col, style),
        d.worksheet_step().after.cell_type == 3,
        d.worksheet_step().after.double_val == Number::Double(bits),
{
    let low = (bits % 0x1_0000_0000) as u32;
    let high = (bits / 0x1_0000_0000) as u32;
    lemma_cell_step(d, 5, col, style, crate::big_buffer::le64(bits));
    lemma_holds_parts(
        d.buffer,
        d.pos + 10,
        crate::big_buffer::le32(low),
        crate::big_buffer::le32(high),
    );
    lemma_le32(d.buffer, d.pos + 10, low);
    lemma_le32(d.buffer, d.pos + 14, high);
}

/// A truth value reads back.
proof fn lemma_bool_step(d: Biff, val: bool, col: int)
    requires
        d.wf(),
        0 <= col < 16_384,
        holds(d.buffer, d.pos, crate::xlsb_cells::bool_cell(val, col)),
    ensures
        has_read_cell(d.worksheet_step(), d, 11, col, 0),
        d.worksheet_step().after.cell_type == 4,
        d.worksheet_step().after.bool_value == val,
{
    let value = seq![
        if val {
            1u8
        } else {
            0u8
        },
    ];
    lemma_cell_step(d, 4, col, 0, value);
    lemma_holds_byte(d.buffer, d.pos + 10, value, 0);
}

/// The index of a shared string reads back.
pub proof fn lemma_sst_step(d: Biff, index: int, col: int, style: u8)
    requires
        d.wf(),
        0 <= col < 16_384,
        0 <= index <= u32::MAX,
        holds(d.buffer, d.pos, crate::xlsb_cells::sst_cell(index, col, style)),
    ensures
        has_read_cell(d.worksheet_step(), d, 14, col, style),
        d.worksheet_step().after.cell_type == 2,
        d.worksheet_step().after.int_value == index,
{
    let raw = crate::xlsb_cells::low32(index);
    lemma_cell_step(d, 7, col, style, crate::big_buffer::le32(raw));
    lemma_le32(d.buffer, d.pos + 10, raw);
}

/// How a double in a style reads back: as a date where the number format of the
/// style shows one.
pub open spec fn number_back(info: BookInfo, bits: u64, style: u8) -> Plain {
    if crate::xlsb_reader::shows_date(info.format_of(style as int), info.date_formats) {
        Plain::DateTime(Number::Double(bits))
    } else {
        Plain::Number(Number::Double(bits))
    }
}

/// The double that a number reads back as. Negative zero is written as the integer
/// zero.
pub open spec fn bits_back(bits: u64) -> u64 {
    match crate::number::packed_integer(bits) {
        Some(n) => crate::number::double_of_int(n) as u64,
        None => bits,
    }
}

/// How a value in a style reads back, `None` where nothing is written for it. All
/// numbers are doubles then.
pub open spec fn value_back(
    info: BookInfo,
    value: Plain,
    style: Option<int>,
    numbers: NumberTable,
) -> Option<Plain> {
    let plain = match style {
        Some(s) => s as u8,
        None => 0u8,
    };
    let dated = match style {
        Some(s) => s as u8,
        None => 1u8,
    };
    match value {
        Plain::Empty => None,
        Plain::Integer(n) => Some(
            number_back(info, crate::number::double_of_int(n as int) as u64, plain),
        ),
        Plain::Number(n) => Some(number_back(info, bits_back(numbers.bits(n)), plain)),
        Plain::Boolean(b) => Some(Plain::Boolean(b)),
        Plain::DateTime(n) => Some(number_back(info, numbers.bits(n), dated)),
        Plain::Text(s) => Some(Plain::Text(s)),
    }
}

/// The row with a value put at a column, if there is one.
pub open spec fn with_value(row: Seq<Cell>, col: int, value: Option<Plain>) -> Seq<Cell> {
    match value {
        Some(value) => crate::xlsb_reader::with_cell(row, col, value),
        None => row,
    }
}

/// The row that the first `n` cells read back as.
pub open spec fn cells_back(
    info: BookInfo,
    tables: Tables,
    line: Seq<Cell>,
    n: nat,
    numbers: NumberTable,
) -> Seq<Cell>
    decreases n,
{
    if n == 0 {
        Seq::empty()
    } else {
        let before = crate::xlsb_cells::cells(tables, line, (n - 1) as nat, numbers);
        with_value(
            cells_back(info, tables, line, (n - 1) as nat, numbers),
            n - 1,
            value_back(
                info,
                line[n - 1].value,
                before.tables.style_for(line[n - 1].format),
                numbers,
            ),
        )
    }
}

/// The larger of two counts.
pub open spec fn larger(a: int, b: int) -> int {
    if a >= b {
        a
    } else {
        b
    }
}

/// The decoder reads a cell record of `len` bytes at a column, with a value.
pub open spec fn reads_value(d: Biff, info: BookInfo, len: int, col: int, value: Plain) -> bool {
    let step = d.worksheet_step();
    &&& step.result == Ok::<bool, Seq<char>>(true)
    &&& step.after.wf()
    &&& step.after.buffer == d.buffer
    &&& step.after.pos == d.pos + len
    &&& step.after.read_cell
    &&& step.after.row_index == d.row_index
    &&& step.after.column_num == col
    &&& info.value(step.after) == value
}

/// Reading one cell record puts its value into the row.
proof fn lemma_read_cell(
    info: BookInfo,
    d: Biff,
    row: Seq<Cell>,
    fields: int,
    len: int,
    col: int,
    value: Plain,
)
    requires
        d.wf(),
        0 <= col < 16_384,
        reads_value(d, info, len, col, value),
    ensures
        crate::xlsb_reader::row_from(info, d, row, fields, d.row_index)
            == crate::xlsb_reader::row_from(
            info,
            d.worksheet_step().after,
            crate::xlsb_reader::with_cell(row, col, value),
            larger(fields, col + 1),
            d.row_index,
        ),
{
}

/// The record of a cell, if it has one, reads as the value that the cell reads back
/// as.
#[verifier::rlimit(40)]
#[verifier::spinoff_prover]
pub proof fn lemma_cell_stepped(
    info: BookInfo,
    tables: Tables,
    cell: Cell,
    col: int,
    numbers: NumberTable,
    d: Biff,
)
    requires
        d.wf(),
        0 <= col < 16_384,
        crate::xlsb_cells::cell(tables, cell, col, numbers).complete,
        crate::xlsb_cells::cell(tables, cell, col, numbers).tables.strings.is_prefix_of(
            info.shared,
        ),
        info.shared.len() <= 0x1_0000_0000,
        holds(d.buffer, d.pos, crate::xlsb_cells::cell(tables, cell, col, numbers).bytes),
    ensures
        ({
            let len = crate::xlsb_cells::cell(tables, cell, col, numbers).bytes.len() as int;
            match value_back(info, cell.value, tables.style_for(cell.format), numbers) {
                Some(value) => reads_value(d, info, len, col, value),
                None => len == 0,
            }
        }),
{
    reveal(crate::xlsb_cells::cell);
    let style = tables.style_for(cell.format);
    let plain = match style {
        Some(s) => s as u8,
        None => 0u8,
    };
    let dated = match style {
        Some(s) => s as u8,
        None => 1u8,
    };
    match cell.value {
        Plain::Empty => {},
        Plain::Integer(n) => {
            if crate::number::RK_LOWER <= n <= crate::number::RK_UPPER {
                lemma_rk_step(d, n as int, col, plain);
            } else {
                lemma_double_step(
                    d,
                    crate::number::double_of_int(n as int) as u64,
                    col,
                    plain,
                );
            }
        },
        Plain::Number(n) => {
            match crate::number::packed_integer(numbers.bits(n)) {
                Some(m) => {
                    lemma_rk_step(d, m, col, plain);
                },
                None => {
                    lemma_double_step(d, numbers.bits(n), col, plain);
                },
            }
        },
        Plain::Boolean(b) => {
            lemma_bool_step(d, b, col);
        },
        Plain::DateTime(n) => {
            lemma_double_step(d, numbers.bits(n), col, dated);
        },
        Plain::Text(text) => {
            lemma_text_found(info, tables.with_format(cell.format), text);
            lemma_sst_step(
                d,
                tables.with_format(cell.format).string_index(text),
                col,
                plain,
            );
        },
    }
}

/// Reading the record of a cell, if it has one, puts its value into the row.
proof fn lemma_cell_back(
    info: BookInfo,
    tables: Tables,
    cell: Cell,
    col: int,
    numbers: NumberTable,
    d: Biff,
    row: Seq<Cell>,
    fields: int,
) -> (after: Biff)
    requires
        d.wf(),
        0 <= col < 16_384,
        crate::xlsb_cells::cell(tables, cell, col, numbers).complete,
        crate::xlsb_cells::cell(tables, cell, col, numbers).tables.strings.is_prefix_of(
            info.shared,
        ),
        info.shared.len() <= 0x1_0000_0000,
        holds(d.buffer, d.pos, crate::xlsb_cells::cell(tables, cell, col, numbers).bytes),
        row.len() <= col,
        fields >= 0,
    ensures
        after.wf(),
        after.buffer == d.buffer,
        after.row_index == d.row_index,
        after.pos == d.pos + crate::xlsb_cells::cell(tables, cell, col, numbers).bytes.len(),
        ({
            let back = value_back(info, cell.value, tables.style_for(cell.format), numbers);
            let read = with_value(row, col, back);
            &&& read.len() <= col + 1
            &&& crate::xlsb_reader::row_from(info, d, row, larger(fields, row.len() as int), d.row_index)
                == crate::xlsb_reader::row_from(
                info,
                after,
                read,
                larger(fields, read.len() as int),
                d.row_index,
            )
        }),
{
    let len = crate::xlsb_cells::cell(tables, cell, col, numbers).bytes.len() as int;
    lemma_cell_stepped(info, tables, cell, col, numbers, d);
    match value_back(info, cell.value, tables.style_for(cell.format), numbers) {
        Some(value) => {
            lemma_read_cell(info, d, row, larger(fields, row.len() as int), len, col, value);
            d.worksheet_step().after
        },
        None => d,
    }
}

/// The index that a text is written with leads the reader to the text.
pub proof fn lemma_text_found(info: BookInfo, tables: Tables, text: Seq<char>)
    requires
        tables.with_string(text).strings.is_prefix_of(info.shared),
        info.shared.len() <= 0x1_0000_0000,
    ensures
        0 <= tables.string_index(text) < info.shared.len(),
        tables.string_index(text) <= u32::MAX,
        info.shared[tables.string_index(text)] == text,
{
    crate::string_table::law_index_finds_text(tables.strings, text, text);
}

/// A cell only adds to the shared strings.
proof fn lemma_cell_keeps_strings(tables: Tables, cell: Cell, col: int, numbers: NumberTable)
    ensures
        tables.strings.is_prefix_of(
            crate::xlsb_cells::cell(tables, cell, col, numbers).tables.strings,
        ),
{
    reveal(crate::xlsb_cells::cell);
    assert(tables.strings.is_prefix_of(tables.strings));
    if let Plain::Text(text) = cell.value {
        crate::string_table::law_index_finds_text(tables.strings, text, text);
    }
}

/// The first cells of a row are written as if they were the whole row.
pub proof fn lemma_cells_prefix(tables: Tables, line: Seq<Cell>, k: nat, n: nat, numbers: NumberTable)
    requires
        k <= n,
        crate::xlsb_cells::cells(tables, line, n, numbers).complete,
    ensures
        ({
            let some = crate::xlsb_cells::cells(tables, line, k, numbers);
            let all = crate::xlsb_cells::cells(tables, line, n, numbers);
            &&& some.complete
            &&& some.bytes.is_prefix_of(all.bytes)
            &&& some.tables.strings.is_prefix_of(all.tables.strings)
        }),
    decreases n - k,
{
    let some = crate::xlsb_cells::cells(tables, line, k, numbers);
    assert(some.bytes.is_prefix_of(some.bytes));
    assert(some.tables.strings.is_prefix_of(some.tables.strings));
    if k < n {
        let most = crate::xlsb_cells::cells(tables, line, (n - 1) as nat, numbers);
        let all = crate::xlsb_cells::cells(tables, line, n, numbers);
        assert(most.complete);
        lemma_cells_prefix(tables, line, k, (n - 1) as nat, numbers);
        lemma_cell_keeps_strings(most.tables, line[n - 1], n - 1, numbers);
        lemma_prefix_trans(some.tables.strings, most.tables.strings, all.tables.strings);
        assert(most.bytes.is_prefix_of(all.bytes));
        lemma_prefix_trans(some.bytes, most.bytes, all.bytes);
    }
}

/// A prefix of a prefix is a prefix.
pub proof fn lemma_prefix_trans<A>(a: Seq<A>, b: Seq<A>, c: Seq<A>)
    requires
        a.is_prefix_of(b),
        b.is_prefix_of(c),
    ensures
        a.is_prefix_of(c),
{
    assert(a =~= c.take(a.len() as int)) by {
        assert(a =~= b.take(a.len() as int));
        assert(b =~= c.take(b.len() as int));
    }
}

pub proof fn lemma_holds_prefix(buffer: Seq<u8>, at: int, some: Seq<u8>, all: Seq<u8>)
    requires
        holds(buffer, at, all),
        some.is_prefix_of(all),
    ensures
        holds(buffer, at, some),
{
    assert(some =~= all.take(some.len() as int));
    assert(some + all.skip(some.len() as int) =~= all);
    lemma_holds_parts(buffer, at, some, all.skip(some.len() as int));
}

/// Reading the records of the first cells of a row gives the row that they read
/// back as.
proof fn lemma_cells_back(
    info: BookInfo,
    tables: Tables,
    line: Seq<Cell>,
    k: nat,
    numbers: NumberTable,
    d: Biff,
    fields: int,
) -> (after: Biff)
    requires
        d.wf(),
        k <= line.len() <= 16_384,
        crate::xlsb_cells::cells(tables, line, line.len(), numbers).complete,
        crate::xlsb_cells::cells(tables, line, line.len(), numbers).tables.strings.is_prefix_of(
            info.shared,
        ),
        info.shared.len() <= 0x1_0000_0000,
        holds(
            d.buffer,
            d.pos,
            crate::xlsb_cells::cells(tables, line, line.len(), numbers).bytes,
        ),
        fields >= 0,
    ensures
        after.wf(),
        after.buffer == d.buffer,
        after.row_index == d.row_index,
        after.pos == d.pos + crate::xlsb_cells::cells(tables, line, k, numbers).bytes.len(),
        ({
            let back = cells_back(info, tables, line, k, numbers);
            &&& back.len() <= k
            &&& crate::xlsb_reader::row_from(info, d, Seq::empty(), fields, d.row_index)
                == crate::xlsb_reader::row_from(
                info,
                after,
                back,
                larger(fields, back.len() as int),
                d.row_index,
            )
        }),
    decreases k,
{
    if k == 0 {
        d
    } else {
        let all = crate::xlsb_cells::cells(tables, line, line.len(), numbers);
        let some = crate::xlsb_cells::cells(tables, line, k, numbers);
        let fewer = crate::xlsb_cells::cells(tables, line, (k - 1) as nat, numbers);
        let here = crate::xlsb_cells::cell(fewer.tables, line[k - 1], k - 1, numbers);
        lemma_cells_prefix(tables, line, k, line.len(), numbers);
        lemma_cells_prefix(tables, line, (k - 1) as nat, k, numbers);
        let mid = lemma_cells_back(info, tables, line, (k - 1) as nat, numbers, d, fields);
        lemma_holds_prefix(d.buffer, d.pos, some.bytes, all.bytes);
        lemma_holds_parts(d.buffer, d.pos, fewer.bytes, here.bytes);
        lemma_prefix_trans(here.tables.strings, all.tables.strings, info.shared);
        lemma_cell_back(
            info,
            fewer.tables,
            line[k - 1],
            k - 1,
            numbers,
            mid,
            cells_back(info, tables, line, (k - 1) as nat, numbers),
            fields,
        )
    }
}

/// The row that the first `n` headers read back as.
pub open spec fn headers_back(headers: Seq<Seq<char>>, n: nat) -> Seq<Cell> {
    Seq::new(n, |i: int| crate::xlsb_reader::bare(Plain::Text(headers[i])))
}

/// The first headers are written as if they were all.
pub proof fn lemma_headers_prefix(tables: Tables, headers: Seq<Seq<char>>, k: nat, n: nat)
    requires
        k <= n,
    ensures
        ({
            let some = crate::xlsb_cells::header_cells(tables, headers, k);
            let all = crate::xlsb_cells::header_cells(tables, headers, n);
            &&& some.bytes.is_prefix_of(all.bytes)
            &&& some.tables.strings.is_prefix_of(all.tables.strings)
        }),
    decreases n - k,
{
    let some = crate::xlsb_cells::header_cells(tables, headers, k);
    assert(some.bytes.is_prefix_of(some.bytes));
    assert(some.tables.strings.is_prefix_of(some.tables.strings));
    if k < n {
        let most = crate::xlsb_cells::header_cells(tables, headers, (n - 1) as nat);
        let all = crate::xlsb_cells::header_cells(tables, headers, n);
        lemma_headers_prefix(tables, headers, k, (n - 1) as nat);
        crate::string_table::law_index_finds_text(
            most.tables.strings,
            headers[n - 1],
            headers[n - 1],
        );
        lemma_prefix_trans(some.tables.strings, most.tables.strings, all.tables.strings);
        assert(most.bytes.is_prefix_of(all.bytes));
        lemma_prefix_trans(some.bytes, most.bytes, all.bytes);
    }
}

/// Reading the records of the first headers gives their texts.
proof fn lemma_headers_back(
    info: BookInfo,
    tables: Tables,
    headers: Seq<Seq<char>>,
    k: nat,
    d: Biff,
    fields: int,
) -> (after: Biff)
    requires
        d.wf(),
        k <= headers.len() <= 16_384,
        crate::xlsb_cells::header_cells(tables, headers, headers.len()).tables.strings.is_prefix_of(
            info.shared,
        ),
        info.shared.len() <= 0x1_0000_0000,
        holds(
            d.buffer,
            d.pos,
            crate::xlsb_cells::header_cells(tables, headers, headers.len()).bytes,
        ),
        fields >= 0,
    ensures
        after.wf(),
        after.buffer == d.buffer,
        after.row_index == d.row_index,
        after.pos == d.pos + crate::xlsb_cells::header_cells(tables, headers, k).bytes.len(),
        crate::xlsb_reader::row_from(info, d, Seq::empty(), fields, d.row_index)
            == crate::xlsb_reader::row_from(
            info,
            after,
            headers_back(headers, k),
            larger(fields, k as int),
            d.row_index,
        ),
    decreases k,
{
    if k == 0 {
        assert(headers_back(headers, 0) =~= Seq::<Cell>::empty());
        d
    } else {
        let all = crate::xlsb_cells::header_cells(tables, headers, headers.len());
        let some = crate::xlsb_cells::header_cells(tables, headers, k);
        let fewer = crate::xlsb_cells::header_cells(tables, headers, (k - 1) as nat);
        let text = headers[k - 1];
        let index = fewer.tables.string_index(text);
        let here = crate::xlsb_cells::sst_cell(index, k - 1, 3);
        lemma_headers_prefix(tables, headers, k, headers.len());
        let mid = lemma_headers_back(info, tables, headers, (k - 1) as nat, d, fields);
        lemma_holds_prefix(d.buffer, d.pos, some.bytes, all.bytes);
        lemma_holds_parts(d.buffer, d.pos, fewer.bytes, here);
        lemma_prefix_trans(some.tables.strings, all.tables.strings, info.shared);
        lemma_text_found(info, fewer.tables, text);
        lemma_sst_step(mid, index, k - 1, 3);
        let row = headers_back(headers, (k - 1) as nat);
        lemma_read_cell(info, mid, row, larger(fields, k - 1), 14, k - 1, Plain::Text(text));
        assert(crate::xlsb_reader::with_cell(row, k - 1, Plain::Text(text)) =~= headers_back(
            headers,
            k,
        ));
        mid.worksheet_step().after
    }
}

/// The bytes from `pos` on are whole records with ids of a kind.
pub open spec fn records_from(bytes: Seq<u8>, pos: int, kind: spec_fn(u32) -> bool) -> bool
    decreases bytes.len() - pos,
    when 0 <= pos && bytes.len() <= usize::MAX
{
    proof {
        crate::biff12::lemma_record_bounds(bytes, pos);
    }
    pos == bytes.len() || match crate::biff12::record_at(bytes, pos) {
        Ok(Some(rec)) => kind(rec.id) && records_from(bytes, rec.data_end as int, kind),
        _ => false,
    }
}

/// The ids of records in a worksheet that are neither row headers nor cells.
pub open spec fn no_cell() -> spec_fn(u32) -> bool {
    |id: u32| id > 0x0b
}

/// The bytes are whole records, none of them a row header or a cell.
pub open spec fn is_quiet(bytes: Seq<u8>) -> bool {
    bytes.len() <= usize::MAX && records_from(bytes, 0, no_cell())
}

/// A number reads the same in a longer buffer.
pub proof fn lemma_vlq_shift(a: Seq<u8>, b: Seq<u8>, c: Seq<u8>, p: int, index: nat)
    requires
        0 <= p,
        crate::biff12::vlq_at(b, p, index) is Ok,
    ensures
        crate::biff12::vlq_at(b, p, index) matches Ok((value, next)) && crate::biff12::vlq_at(
            a + b + c,
            a.len() + p,
            index,
        ) == Ok::<(nat, int), crate::biff12::VlqFault>((value, a.len() + next)),
    decreases 5 - index,
{
    assert((a + b + c)[a.len() + p] == b[p]);
    if index < 5 && p < b.len() && b[p] >= 0x80 {
        lemma_vlq_shift(a, b, c, p + 1, index + 1);
    }
}

/// What entering a record leads to that stands inside a longer buffer.
pub proof fn lemma_begin_within(d: Biff, a: Seq<u8>, b: Seq<u8>, c: Seq<u8>, p: int)
    requires
        d.wf(),
        d.buffer == a + b + c,
        d.pos == a.len() + p,
        0 <= p < b.len() <= usize::MAX,
        crate::biff12::record_at(b, p) matches Ok(Some(_)),
    ensures
        crate::biff12::record_at(b, p) matches Ok(Some(rec)) && {
            &&& d.begin() == (Step::<Option<u32>> {
                after: Biff {
                    pos: a.len() + rec.data_end as int,
                    record_start: a.len() + rec.data_start as int,
                    record_end: a.len() + rec.data_end as int,
                    ..d
                },
                result: Ok(Some(rec.id)),
            })
            &&& p < rec.data_start <= rec.data_end <= b.len()
        },
{
    crate::biff12::lemma_record_bounds(b, p);
    crate::biff12::lemma_vlq_at_advances(b, p, 0);
    lemma_vlq_shift(a, b, c, p, 0);
    if let Ok((_, p1)) = crate::biff12::vlq_at(b, p, 0) {
        lemma_vlq_shift(a, b, c, p1, 0);
        crate::biff12::lemma_vlq_at_advances(b, p1, 0);
    }
}

/// What reading a record that is neither a row header nor a cell leads to.
pub proof fn lemma_quiet_step(d: Biff, a: Seq<u8>, b: Seq<u8>, c: Seq<u8>, p: int)
    requires
        d.wf(),
        d.buffer == a + b + c,
        d.pos == a.len() + p,
        0 <= p < b.len() <= usize::MAX,
        crate::biff12::record_at(b, p) matches Ok(Some(rec)) && rec.id > 0x0b,
    ensures
        ({
            let step = d.worksheet_step();
            &&& crate::biff12::record_at(b, p) matches Ok(Some(rec))
            &&& step.result == Ok::<bool, Seq<char>>(true)
            &&& step.after.wf()
            &&& step.after.buffer == d.buffer
            &&& step.after.pos == a.len() + rec.data_end
            &&& p < rec.data_end <= b.len()
            &&& !step.after.read_cell
            &&& step.after.row_index == d.row_index
        }),
{
    lemma_begin_within(d, a, b, c, p);
}

/// Records before the first row are skipped.
pub proof fn lemma_quiet_head(d: Biff, head: Seq<u8>, rest: Seq<u8>) -> (after: Biff)
    requires
        d.wf(),
        d.buffer == head + rest,
        head.len() <= usize::MAX,
        d.pos <= head.len(),
        records_from(head, d.pos, no_cell()),
        d.row_index == -1,
    ensures
        after.wf(),
        after.buffer == d.buffer,
        after.pos == head.len(),
        after.row_index == -1,
        crate::xlsb_reader::first_row(d) == crate::xlsb_reader::first_row(after),
    decreases head.len() - d.pos,
{
    if d.pos == head.len() {
        d
    } else {
        assert(d.buffer =~= Seq::<u8>::empty() + head + rest);
        lemma_quiet_step(d, Seq::empty(), head, rest, d.pos);
        lemma_quiet_head(d.worksheet_step().after, head, rest)
    }
}

/// Records behind the last row leave it as it is.
pub proof fn lemma_quiet_tail(
    info: BookInfo,
    d: Biff,
    before: Seq<u8>,
    tail: Seq<u8>,
    row: Seq<Cell>,
    fields: int,
)
    requires
        d.wf(),
        d.buffer == before + tail,
        tail.len() <= usize::MAX,
        before.len() <= d.pos,
        records_from(tail, d.pos - before.len(), no_cell()),
    ensures
        ({
            let read = crate::xlsb_reader::row_from(info, d, row, fields, d.row_index);
            &&& read.row == row
            &&& read.fields == fields
            &&& read.result == Ok::<crate::xlsb_reader::RowStop, Seq<char>>(
                crate::xlsb_reader::RowStop::End,
            )
        }),
    decreases d.buffer.len() - d.pos,
{
    let p = d.pos - before.len();
    if p < tail.len() {
        assert(d.buffer =~= before + tail + Seq::<u8>::empty());
        lemma_quiet_step(d, before, tail, Seq::empty(), p);
        lemma_quiet_tail(info, d.worksheet_step().after, before, tail, row, fields);
    }
}

/// The lines of a sheet to be written: its headers, if it has any, and its rows.
pub struct Page {
    pub tables: Tables,
    pub columns: int,
    pub headers: Option<Seq<Seq<char>>>,
    pub sheet: Seq<Seq<Cell>>,
    pub numbers: NumberTable,
}

impl Page {
    /// The number of the first row.
    pub open spec fn first(self) -> int {
        if self.headers is Some {
            1
        } else {
            0
        }
    }

    /// The number of lines.
    pub open spec fn lines(self) -> int {
        self.first() + self.sheet.len()
    }

    /// All lines have their number of cells, and Excel has room for them.
    pub open spec fn fits(self) -> bool {
        &&& 0 <= self.columns <= 16_384
        &&& self.lines() <= 1_048_576
        &&& self.headers matches Some(h) ==> h.len() == self.columns
        &&& forall|i: int|
            0 <= i < self.sheet.len() ==> (#[trigger] self.sheet[i]).len() == self.columns
    }

    /// The tables behind the headers.
    pub open spec fn header(self) -> crate::xlsb_cells::Binary {
        crate::xlsb_cells::header_row(self.tables, self.headers, self.columns)
    }

    /// What the first `n` rows are written as.
    pub open spec fn rows(self, n: int) -> crate::xlsb_cells::Binary {
        crate::xlsb_cells::rows(
            self.header().tables,
            self.sheet,
            n as nat,
            self.first(),
            self.columns,
            self.numbers,
        )
    }

    /// The bytes of the first `i` lines.
    pub open spec fn bytes(self, i: int) -> Seq<u8> {
        if i < self.first() {
            Seq::empty()
        } else {
            self.header().bytes + self.rows(i - self.first()).bytes
        }
    }

    /// The bytes of the cells of a line.
    pub open spec fn cell_bytes(self, i: int) -> Seq<u8> {
        if i < self.first() {
            crate::xlsb_cells::header_cells(
                self.tables,
                self.headers->0,
                (self.headers->0).len(),
            ).bytes
        } else {
            let r = i - self.first();
            crate::xlsb_cells::cells(
                self.rows(r).tables,
                self.sheet[r],
                self.sheet[r].len(),
                self.numbers,
            ).bytes
        }
    }

    /// The row that a line reads back as.
    pub open spec fn line_back(self, info: BookInfo, i: int) -> Seq<Cell> {
        if i < self.first() {
            headers_back(self.headers->0, (self.headers->0).len())
        } else {
            let r = i - self.first();
            cells_back(
                info,
                self.rows(r).tables,
                self.sheet[r],
                self.sheet[r].len(),
                self.numbers,
            )
        }
    }

    /// Every format has its place, and every text is where the reader finds it.
    pub open spec fn is_shared(self, info: BookInfo) -> bool {
        &&& self.rows(self.sheet.len() as int).complete
        &&& self.rows(self.sheet.len() as int).tables.strings.is_prefix_of(info.shared)
        &&& info.shared.len() <= 0x1_0000_0000
    }
}

/// The first rows are written as if they were all.
pub proof fn lemma_rows_prefix(page: Page, k: int, n: int)
    requires
        0 <= k <= n <= page.sheet.len(),
        page.rows(n).complete,
    ensures
        page.rows(k).complete,
        page.rows(k).bytes.is_prefix_of(page.rows(n).bytes),
        page.rows(k).tables.strings.is_prefix_of(page.rows(n).tables.strings),
    decreases n - k,
{
    let some = page.rows(k);
    assert(some.bytes.is_prefix_of(some.bytes));
    assert(some.tables.strings.is_prefix_of(some.tables.strings));
    if k < n {
        let most = page.rows(n - 1);
        let all = page.rows(n);
        let line = page.sheet[n - 1];
        assert(most.complete);
        lemma_rows_prefix(page, k, n - 1);
        reveal(crate::xlsb_cells::row);
        lemma_cells_prefix(most.tables, line, 0, line.len(), page.numbers);
        lemma_prefix_trans(some.tables.strings, most.tables.strings, all.tables.strings);
        assert(most.bytes.is_prefix_of(all.bytes));
        lemma_prefix_trans(some.bytes, most.bytes, all.bytes);
    }
}

/// A line stands behind the lines before it, with a header in front.
proof fn lemma_line(page: Page, i: int)
    requires
        page.fits(),
        0 <= i < page.lines(),
        page.rows(page.sheet.len() as int).complete,
    ensures
        page.bytes(i + 1) == page.bytes(i) + crate::xlsb_cells::row_header(
            i as u32,
            0,
            page.columns,
        ) + page.cell_bytes(i),
        page.bytes(i + 1).is_prefix_of(page.bytes(page.lines())),
{
    let n = page.sheet.len() as int;
    let r = i - page.first();
    if r < 0 {
        assert(page.rows(0).bytes =~= Seq::<u8>::empty());
        assert(page.bytes(1) =~= page.bytes(0) + crate::xlsb_cells::row_header(0, 0, page.columns)
            + page.cell_bytes(0));
        lemma_rows_prefix(page, 0, n);
    } else {
        lemma_rows_prefix(page, r + 1, n);
        lemma_rows_prefix(page, r, n);
        reveal(crate::xlsb_cells::row);
        assert((page.first() + (r + 1) - 1) == i);
        assert(page.bytes(i + 1) =~= page.bytes(i) + crate::xlsb_cells::row_header(
            i as u32,
            0,
            page.columns,
        ) + page.cell_bytes(i));
    }
    let some = page.rows(r + 1).bytes;
    let all = page.rows(n).bytes;
    assert(some =~= all.take(some.len() as int));
    assert(page.bytes(i + 1) =~= page.bytes(page.lines()).take(page.bytes(i + 1).len() as int));
}

/// Reading the cells of a line gives the row that it reads back as.
proof fn lemma_line_back(page: Page, info: BookInfo, i: int, d: Biff, fields: int) -> (after: Biff)
    requires
        page.fits(),
        page.is_shared(info),
        0 <= i < page.lines(),
        d.wf(),
        holds(d.buffer, d.pos, page.cell_bytes(i)),
        fields >= 0,
    ensures
        after.wf(),
        after.buffer == d.buffer,
        after.row_index == d.row_index,
        after.pos == d.pos + page.cell_bytes(i).len(),
        ({
            let back = page.line_back(info, i);
            crate::xlsb_reader::row_from(info, d, Seq::empty(), fields, d.row_index)
                == crate::xlsb_reader::row_from(
                info,
                after,
                back,
                larger(fields, back.len() as int),
                d.row_index,
            )
        }),
{
    let n = page.sheet.len() as int;
    if i < page.first() {
        let h = page.headers->0;
        lemma_rows_prefix(page, 0, n);
        lemma_prefix_trans(
            page.header().tables.strings,
            page.rows(n).tables.strings,
            info.shared,
        );
        lemma_headers_back(info, page.tables, h, h.len(), d, fields)
    } else {
        let r = i - page.first();
        let line = page.sheet[r];
        lemma_rows_prefix(page, r + 1, n);
        lemma_rows_prefix(page, r, n);
        reveal(crate::xlsb_cells::row);
        lemma_prefix_trans(
            page.rows(r + 1).tables.strings,
            page.rows(n).tables.strings,
            info.shared,
        );
        lemma_cells_back(
            info,
            page.rows(r).tables,
            line,
            line.len(),
            page.numbers,
            d,
            fields,
        )
    }
}

/// A reader after `n` more rows have been read.
pub open spec fn after_reads(
    state: crate::xlsb_reader::XlsbBookState,
    n: nat,
) -> crate::xlsb_reader::XlsbBookState
    decreases n,
{
    if n == 0 {
        state
    } else {
        after_reads(state, (n - 1) as nat).advanced().0
    }
}

/// The reader of a sheet stands behind the header of line `i`.
spec fn stands_in_line(
    state: crate::xlsb_reader::XlsbBookState,
    page: Page,
    info: BookInfo,
    head: Seq<u8>,
    tail: Seq<u8>,
    i: int,
) -> bool {
    &&& state.info() == info
    &&& !state.eof
    &&& state.pending == i
    &&& state.fields >= 0
    &&& state.sheet matches Some(d) && {
        &&& d.wf()
        &&& d.buffer == head + page.bytes(page.lines()) + tail
        &&& d.pos == head.len() + page.bytes(i).len() + 27
        &&& d.row_index == i
    }
}

/// Where a line stands in the bytes of its sheet.
pub proof fn lemma_line_place(page: Page, head: Seq<u8>, tail: Seq<u8>, i: int)
    requires
        page.fits(),
        page.rows(page.sheet.len() as int).complete,
        0 <= i < page.lines(),
    ensures
        ({
            let buffer = head + page.bytes(page.lines()) + tail;
            let at = head.len() + page.bytes(i).len() as int;
            &&& holds(buffer, at, crate::xlsb_cells::row_header(i as u32, 0, page.columns))
            &&& holds(buffer, at + 27, page.cell_bytes(i))
            &&& page.bytes(i + 1).len() == page.bytes(i).len() + 27 + page.cell_bytes(i).len()
        }),
{
    let all = page.bytes(page.lines());
    let buffer = head + all + tail;
    let header = crate::xlsb_cells::row_header(i as u32, 0, page.columns);
    let here = page.bytes(i) + header + page.cell_bytes(i);
    let at = head.len() + page.bytes(i).len() as int;
    lemma_line(page, i);
    assert(header.len() == 27);
    assert(here == all.take(here.len() as int));
    assert(buffer.subrange(head.len() as int, head.len() + here.len() as int) =~= here);
    assert(here =~= page.bytes(i) + (header + page.cell_bytes(i)));
    lemma_holds_parts(buffer, head.len() as int, page.bytes(i), header + page.cell_bytes(i));
    lemma_holds_parts(buffer, at, header, page.cell_bytes(i));
}

/// One more row is read.
proof fn lemma_read_line(
    state: crate::xlsb_reader::XlsbBookState,
    page: Page,
    info: BookInfo,
    head: Seq<u8>,
    tail: Seq<u8>,
    i: int,
)
    requires
        page.fits(),
        page.is_shared(info),
        is_quiet(tail),
        0 <= i < page.lines(),
        stands_in_line(state, page, info, head, tail, i),
    ensures
        state.advanced().1 == Ok::<bool, Seq<char>>(true),
        state.advanced().0.row == page.line_back(info, i),
        i + 1 < page.lines() ==> stands_in_line(
            state.advanced().0,
            page,
            info,
            head,
            tail,
            i + 1,
        ),
        i + 1 == page.lines() ==> state.advanced().0.eof,
{
    let d = state.sheet->0;
    let all = page.bytes(page.lines());
    lemma_line_place(page, head, tail, i);
    let after = lemma_line_back(page, info, i, d, state.fields);
    let back = page.line_back(info, i);
    let fields = larger(state.fields, back.len() as int);
    if i + 1 < page.lines() {
        lemma_line_place(page, head, tail, i + 1);
        lemma_row_header_step(after, (i + 1) as u32, page.columns);
    } else {
        assert(d.buffer == (head + all) + tail);
        lemma_quiet_tail(info, after, head + all, tail, back, fields);
    }
}

/// After some rows the reader stands in the next line.
proof fn lemma_reads(
    start: crate::xlsb_reader::XlsbBookState,
    page: Page,
    info: BookInfo,
    head: Seq<u8>,
    tail: Seq<u8>,
    n: nat,
)
    requires
        page.fits(),
        page.is_shared(info),
        is_quiet(tail),
        stands_in_line(start, page, info, head, tail, 0),
        n < page.lines(),
    ensures
        stands_in_line(after_reads(start, n), page, info, head, tail, n as int),
    decreases n,
{
    if n > 0 {
        lemma_reads(start, page, info, head, tail, (n - 1) as nat);
        lemma_read_line(after_reads(start, (n - 1) as nat), page, info, head, tail, n - 1);
    }
}

/// Records without a row lead to no row.
proof fn lemma_no_row(d: Biff, before: Seq<u8>, tail: Seq<u8>) -> (after: Biff)
    requires
        d.wf(),
        d.buffer == before + tail,
        tail.len() <= usize::MAX,
        before.len() <= d.pos,
        records_from(tail, d.pos - before.len(), no_cell()),
        d.row_index == -1,
    ensures
        crate::xlsb_reader::first_row(d) == Ok::<(Biff, bool), Seq<char>>((after, false)),
    decreases d.buffer.len() - d.pos,
{
    let p = d.pos - before.len();
    if p < tail.len() {
        assert(d.buffer =~= before + tail + Seq::<u8>::empty());
        lemma_quiet_step(d, before, tail, Seq::empty(), p);
        lemma_no_row(d.worksheet_step().after, before, tail)
    } else {
        d.worksheet_step().after
    }
}

/// A sheet without lines is entered without a row, and gives none.
pub proof fn lemma_empty_sheet(
    book: crate::xlsb_reader::XlsbBookState,
    index: int,
    head: Seq<u8>,
    tail: Seq<u8>,
)
    requires
        0 <= index < book.sheets.len(),
        is_quiet(head),
        is_quiet(tail),
        head.len() + tail.len() <= usize::MAX,
    ensures
        ({
            let (start, entered) = book.begun(index, head + tail);
            &&& entered == Ok::<bool, Seq<char>>(false)
            &&& start.advanced() == (start, Ok::<bool, Seq<char>>(false))
        }),
{
    let d0 = crate::biff_reader::decoder_at_start(head + tail);
    let d1 = lemma_quiet_head(d0, head, tail);
    let d2 = lemma_no_row(d1, head, tail);
}

/// A sheet written and read back: entering it tells whether it has a line, every
/// read gives the next line, first the headers, then the rows, each cell as
/// [`value_back`] says, and behind the last line the sheet ends. The bytes around the
/// rows have to be records that are neither rows nor cells, and the shared strings
/// those that the writer has given out.
pub proof fn law_written_sheet_reads_back(
    book: crate::xlsb_reader::XlsbBookState,
    index: int,
    page: Page,
    head: Seq<u8>,
    tail: Seq<u8>,
    n: nat,
)
    requires
        0 <= index < book.sheets.len(),
        page.fits(),
        page.is_shared(book.info()),
        is_quiet(head),
        is_quiet(tail),
        head.len() + page.bytes(page.lines()).len() + tail.len() <= usize::MAX,
        n <= page.lines(),
    ensures
        ({
            let bytes = head + page.bytes(page.lines()) + tail;
            let (start, entered) = book.begun(index, bytes);
            let before = after_reads(start, n);
            let (after, read) = before.advanced();
            &&& entered == Ok::<bool, Seq<char>>(page.lines() > 0)
            &&& if n < page.lines() {
                read == Ok::<bool, Seq<char>>(true) && after.row == page.line_back(
                    book.info(),
                    n as int,
                )
            } else {
                read == Ok::<bool, Seq<char>>(false) && after == before
            }
        }),
{
    let info = book.info();
    let all = page.bytes(page.lines());
    let bytes = head + all + tail;
    let (start, entered) = book.begun(index, bytes);
    assert(page.rows(0).bytes =~= Seq::<u8>::empty());
    assert(page.bytes(0) =~= Seq::<u8>::empty());
    if page.lines() == 0 {
        assert(bytes =~= head + tail);
        lemma_empty_sheet(book, index, head, tail);
    } else {
        let d0 = crate::biff_reader::decoder_at_start(bytes);
        lemma_line_place(page, head, tail, 0);
        assert(bytes =~= head + (all + tail));
        let d1 = lemma_quiet_head(d0, head, all + tail);
        lemma_row_header_step(d1, 0, page.columns);
        assert(stands_in_line(start, page, info, head, tail, 0));
        let m = if n < page.lines() {
            n
        } else {
            (n - 1) as nat
        };
        lemma_reads(start, page, info, head, tail, m);
        lemma_read_line(after_reads(start, m), page, info, head, tail, m as int);
    }
}

/// The part that the writer makes of a sheet written at once: the bytes of its
/// lines between the head and the tail. With this [`law_written_sheet_reads_back`]
/// speaks of the writer's own output.
pub proof fn law_written_part(
    book: XlsbBook,
    columns: int,
    sheet: Seq<Seq<Cell>>,
    headers: Option<Seq<Seq<char>>>,
    do_autofilter: bool,
    numbers: NumberTable,
)
    ensures
        ({
            let page = Page { tables: book.tables, columns, headers, sheet, numbers };
            let after = book.with_written_sheet(columns, sheet, headers, do_autofilter, numbers);
            let filtered = do_autofilter && headers is Some && columns > 0;
            &&& after.entries.last().bytes == crate::xlsb_writer::sheet_head(
                book.templates,
                crate::xlsx_writer::fitted_widths(columns, headers, Some(sheet), numbers),
                headers is Some,
                book.sheets.len() == 1,
            ) + page.bytes(page.lines()) + crate::xlsb_writer::sheet_tail(
                book.templates,
                filtered,
                sheet.len() + 1int,
                columns,
            )
            &&& after.tables == page.rows(sheet.len() as int).tables
        }),
{
}

/// The workbook after the first `n` rows of a sheet, written one by one.
pub open spec fn with_rows(
    book: XlsbBook,
    sheet: Seq<Seq<Cell>>,
    n: nat,
    numbers: NumberTable,
) -> XlsbBook
    decreases n,
{
    if n == 0 {
        book
    } else {
        with_rows(book, sheet, (n - 1) as nat, numbers).with_row(sheet[n - 1], numbers)
    }
}

/// Rows written one by one add up to the rows written at once.
proof fn lemma_rows_one_by_one(start: XlsbBook, sheet: Seq<Seq<Cell>>, n: nat, numbers: NumberTable)
    requires
        start.open is Some,
        start.open->0.rows >= 0,
        start.open->0.rows + n <= u32::MAX,
        n <= sheet.len(),
        crate::xlsb_cells::rows(
            start.tables,
            sheet,
            n,
            start.open->0.rows,
            start.open->0.columns,
            numbers,
        ).complete,
    ensures
        ({
            let open = start.open->0;
            let body = crate::xlsb_cells::rows(
                start.tables,
                sheet,
                n,
                open.rows,
                open.columns,
                numbers,
            );
            with_rows(start, sheet, n, numbers) == (XlsbBook {
                tables: body.tables,
                open: Some(
                    crate::xlsb_writer::BinOpenSheet {
                        rows: open.rows + n as int,
                        bytes: open.bytes + body.bytes,
                        ..open
                    },
                ),
                ..start
            })
        }),
    decreases n,
{
    let open = start.open->0;
    if n == 0 {
        assert(open.bytes + Seq::<u8>::empty() =~= open.bytes);
    } else {
        lemma_rows_one_by_one(start, sheet, (n - 1) as nat, numbers);
        let before = crate::xlsb_cells::rows(
            start.tables,
            sheet,
            (n - 1) as nat,
            open.rows,
            open.columns,
            numbers,
        );
        let all = crate::xlsb_cells::rows(start.tables, sheet, n, open.rows, open.columns, numbers);
        let last = crate::xlsb_cells::row(
            before.tables,
            sheet[n - 1],
            (open.rows + n - 1) as u32,
            open.columns,
            numbers,
        );
        assert(open.bytes + before.bytes + last.bytes =~= open.bytes + all.bytes);
    }
}

/// A sheet written row by row leaves the workbook exactly as the same sheet
/// written at once, where the rows serve as the sample for the widths and all
/// formats have their place.
pub proof fn law_streaming_matches_batch(
    book: XlsbBook,
    name: Seq<char>,
    columns: int,
    headers: Option<Seq<Seq<char>>>,
    rows: Vec<Vec<crate::formats::CellValue>>,
    hidden: bool,
    do_autofilter: bool,
    numbers: NumberTable,
)
    requires
        rows@.len() < u32::MAX,
        book.open is None,
        book.sheet_rows(
            columns,
            crate::formats::sheet_cells(rows@),
            headers,
            numbers,
        ).complete,
    ensures
        ({
            let sheet = crate::formats::sheet_cells(rows@);
            let options = XlsbSheetOptions { hidden, do_autofilter, sample_rows: Some(rows) };
            with_rows(
                book.with_started_sheet(name, columns, headers, options, numbers),
                sheet,
                sheet.len(),
                numbers,
            ).with_ended_sheet() == book.with_sheet(name, hidden).with_written_sheet(
                columns,
                sheet,
                headers,
                do_autofilter,
                numbers,
            )
        }),
{
    let sheet = crate::formats::sheet_cells(rows@);
    let options = XlsbSheetOptions { hidden, do_autofilter, sample_rows: Some(rows) };
    let started = book.with_started_sheet(name, columns, headers, options, numbers);
    let added = book.with_sheet(name, hidden);
    let header = crate::xlsb_cells::header_row(book.tables, headers, columns);
    let body = added.sheet_rows(columns, sheet, headers, numbers);
    lemma_rows_one_by_one(started, sheet, sheet.len(), numbers);
    let streamed = with_rows(started, sheet, sheet.len(), numbers);
    let head = crate::xlsb_writer::sheet_head(
        book.templates,
        crate::xlsx_writer::fitted_widths(columns, headers, Some(sheet), numbers),
        headers is Some,
        added.sheets.len() == 1,
    );
    assert(streamed.open->0.bytes =~= head + body.bytes);
    reveal(crate::xlsb_writer::sheet_tail);
    assert(streamed.with_ended_sheet().entries =~= added.with_written_sheet(
        columns,
        sheet,
        headers,
        do_autofilter,
        numbers,
    ).entries);
}

} // verus!
