//! What the records of an XLSB worksheet stand for, by their bytes.

use vstd::prelude::*;
use crate::biff_reader::Biff;
use crate::formats::{Cell, Plain};
use crate::number::Number;
use crate::xlsb_reader::{BookInfo, RowStop};

verus! {

/// A record is entered at its payload.
proof fn lemma_entered(d: Biff, id: u32, payload: Seq<u8>)
    requires
        d.wf(),
        payload.len() <= u32::MAX,
        crate::xlsb_laws::holds(d.buffer, d.pos, crate::biff12::record(id as nat, payload)),
    ensures
        ({
            let b = d.begin().after;
            &&& d.begin().result == Ok::<Option<u32>, Seq<char>>(Some(id))
            &&& b.wf()
            &&& b.buffer == d.buffer
            &&& b.pos == d.pos + crate::biff12::record(id as nat, payload).len()
            &&& b.record_end == b.record_start + payload.len()
            &&& b.row_index == d.row_index
            &&& forall|i: int|
                0 <= i < payload.len() ==> d.buffer[b.record_start + i] == #[trigger] payload[i]
        }),
{
    crate::xlsb_part_laws::lemma_begin_record(d, id, payload);
    let b = d.begin().after;
    assert forall|i: int| 0 <= i < payload.len() implies d.buffer[b.record_start + i]
        == #[trigger] payload[i] by {
        crate::xlsb_laws::lemma_holds_byte(d.buffer, b.record_start, payload, i);
    }
}

/// A row header (record 0) says which row follows, counted from zero, by the first
/// four bytes of its payload, low byte first. It is no cell.
pub proof fn law_row_header_names_its_row(d: Biff, payload: Seq<u8>)
    requires
        d.wf(),
        4 <= payload.len() <= u32::MAX,
        payload[3] < 0x80,
        crate::xlsb_laws::holds(d.buffer, d.pos, crate::biff12::record(0, payload)),
    ensures
        ({
            let step = d.worksheet_step();
            &&& step.result == Ok::<bool, Seq<char>>(true)
            &&& step.after.pos == d.pos + crate::biff12::record(0, payload).len()
            &&& !step.after.read_cell
            &&& step.after.row_index == payload[0] + 0x100 * payload[1] + 0x1_0000 * payload[2]
                + 0x100_0000 * payload[3]
        }),
{
    lemma_entered(d, 0, payload);
}

/// Records other than row headers and cells (ids above 0x0b) leave the row and hold
/// no cell.
pub proof fn law_other_records_hold_no_cell(d: Biff, id: u32, payload: Seq<u8>)
    requires
        d.wf(),
        id > 0x0b,
        payload.len() <= u32::MAX,
        crate::xlsb_laws::holds(d.buffer, d.pos, crate::biff12::record(id as nat, payload)),
    ensures
        ({
            let step = d.worksheet_step();
            &&& step.result == Ok::<bool, Seq<char>>(true)
            &&& step.after.pos == d.pos + crate::biff12::record(id as nat, payload).len()
            &&& !step.after.read_cell
            &&& step.after.row_index == d.row_index
        }),
{
    lemma_entered(d, id, payload);
}

/// The column and the style of a cell record, by the bytes that its payload starts
/// with.
proof fn lemma_placed(d: Biff, id: u32, payload: Seq<u8>)
    requires
        d.wf(),
        8 <= payload.len() <= u32::MAX,
        crate::xlsb_laws::holds(d.buffer, d.pos, crate::biff12::record(id as nat, payload)),
        ({
            let b = d.begin().after;
            let s = Biff { read_cell: false, column_num: -1, string_value: None, ..b };
            let v = s.worksheet_payload(id);
            &&& v.result is Ok
            &&& v.after.read_cell
            &&& v.after.buffer == s.buffer
            &&& v.after.record_start == s.record_start
            &&& v.after.record_end == s.record_end
        }),
    ensures
        ({
            let b = d.begin().after;
            let s = Biff { read_cell: false, column_num: -1, string_value: None, ..b };
            let v = s.worksheet_payload(id).after;
            let step = d.worksheet_step();
            &&& step.result == Ok::<bool, Seq<char>>(true)
            &&& step.after == Biff {
                column_num: payload[0] + 0x100 * payload[1] + 0x1_0000 * payload[2] + 0x100_0000
                    * payload[3],
                xf_index: payload[4] + 0x100 * payload[5] + 0x1_0000 * payload[6],
                ..v
            }
        }),
{
    lemma_entered(d, id, payload);
    let at = d.begin().after.record_start;
    assert(d.buffer[at + 0] == payload[0] && d.buffer[at + 1] == payload[1]);
    assert(d.buffer[at + 2] == payload[2] && d.buffer[at + 3] == payload[3]);
    assert(d.buffer[at + 4] == payload[4] && d.buffer[at + 5] == payload[5]);
    assert(d.buffer[at + 6] == payload[6] && d.buffer[at + 7] == payload[7]);
    let low = payload[4] + 0x100 * payload[5] + 0x1_0000 * payload[6];
    let word = low + 0x100_0000 * payload[7];
    assert(word % 0x100_0000 == low) by (nonlinear_arith)
        requires
            word == low + 0x100_0000 * payload[7],
            0 <= low < 0x100_0000,
    ;
}

/// A number stands in a record of its own (0x05) or is the result of a formula
/// (0x09): the cell stands at the column that the first four bytes of the payload
/// name, in the style that the next three name, and its value is the double with the
/// eight bytes behind the eighth. It is a date where the number format of the style
/// is one of Excel's own for dates, 14 to 22 and 45 to 47, or a date format of the
/// workbook.
pub proof fn law_number_record(d: Biff, id: u32, payload: Seq<u8>, bits: u64, info: BookInfo)
    requires
        d.wf(),
        id == 0x05 || id == 0x09,
        16 <= payload.len() <= u32::MAX,
        crate::xlsb_laws::holds(d.buffer, d.pos, crate::biff12::record(id as nat, payload)),
        bits == payload[8] + 0x100 * payload[9] + 0x1_0000 * payload[10] + 0x100_0000 * payload[11]
            + 0x1_0000_0000 * payload[12] + 0x100_0000_0000 * payload[13] + 0x1_0000_0000_0000
            * payload[14] + 0x100_0000_0000_0000 * payload[15],
    ensures
        ({
            let step = d.worksheet_step();
            let style = payload[4] + 0x100 * payload[5] + 0x1_0000 * payload[6];
            &&& step.result == Ok::<bool, Seq<char>>(true)
            &&& step.after.pos == d.pos + crate::biff12::record(id as nat, payload).len()
            &&& step.after.row_index == d.row_index
            &&& step.after.read_cell
            &&& step.after.cell_type == 3
            &&& step.after.double_val == Number::Double(bits)
            &&& step.after.column_num == payload[0] + 0x100 * payload[1] + 0x1_0000 * payload[2]
                + 0x100_0000 * payload[3]
            &&& step.after.xf_index == style
            &&& style < info.formats.len() ==> {
                let format = info.formats[style];
                info.value(step.after) == if 14 <= format <= 22 || 45 <= format <= 47
                    || info.date_formats.contains(format) {
                    Plain::DateTime(Number::Double(bits))
                } else {
                    Plain::Number(Number::Double(bits))
                }
            }
            &&& style >= info.formats.len() && !info.date_formats.contains(0) ==> info.value(
                step.after,
            ) == Plain::Number(Number::Double(bits))
        }),
{
    lemma_entered(d, id, payload);
    let at = d.begin().after.record_start;
    assert(d.buffer[at + 8] == payload[8] && d.buffer[at + 9] == payload[9]);
    assert(d.buffer[at + 10] == payload[10] && d.buffer[at + 11] == payload[11]);
    assert(d.buffer[at + 12] == payload[12] && d.buffer[at + 13] == payload[13]);
    assert(d.buffer[at + 14] == payload[14] && d.buffer[at + 15] == payload[15]);
    lemma_placed(d, id, payload);
}

/// A truth value stands in a record of its own (0x04) or is the result of a formula
/// (0x0a): it is true where the ninth byte of the payload is one.
pub proof fn law_boolean_record(d: Biff, id: u32, payload: Seq<u8>, info: BookInfo)
    requires
        d.wf(),
        id == 0x04 || id == 0x0a,
        9 <= payload.len() <= u32::MAX,
        crate::xlsb_laws::holds(d.buffer, d.pos, crate::biff12::record(id as nat, payload)),
    ensures
        ({
            let step = d.worksheet_step();
            &&& step.result == Ok::<bool, Seq<char>>(true)
            &&& step.after.pos == d.pos + crate::biff12::record(id as nat, payload).len()
            &&& step.after.row_index == d.row_index
            &&& step.after.read_cell
            &&& step.after.cell_type == 4
            &&& step.after.column_num == payload[0] + 0x100 * payload[1] + 0x1_0000 * payload[2]
                + 0x100_0000 * payload[3]
            &&& info.value(step.after) == Plain::Boolean(payload[8] == 1)
        }),
{
    lemma_entered(d, id, payload);
    let at = d.begin().after.record_start;
    assert(d.buffer[at + 8] == payload[8]);
    lemma_placed(d, id, payload);
}

/// A text stands in a cell (0x06) or is the result of a formula (0x08): behind the
/// eighth byte of the payload stand the number of its UTF-16 code units and the units,
/// low byte first. What follows them is no part of the text.
pub proof fn law_text_record(
    d: Biff,
    id: u32,
    payload: Seq<u8>,
    text: Seq<char>,
    info: BookInfo,
)
    requires
        d.wf(),
        id == 0x06 || id == 0x08,
        ({
            let bytes = crate::utf16::le_bytes(crate::utf16::encode_units(text));
            &&& 12 + bytes.len() <= payload.len() <= u32::MAX
            &&& payload[8] + 0x100 * payload[9] + 0x1_0000 * payload[10] + 0x100_0000 * payload[11]
                == crate::utf16::encode_units(text).len()
            &&& payload.subrange(12, (12 + bytes.len()) as int) == bytes
        }),
        crate::xlsb_laws::holds(d.buffer, d.pos, crate::biff12::record(id as nat, payload)),
    ensures
        ({
            let step = d.worksheet_step();
            &&& step.result == Ok::<bool, Seq<char>>(true)
            &&& step.after.pos == d.pos + crate::biff12::record(id as nat, payload).len()
            &&& step.after.row_index == d.row_index
            &&& step.after.read_cell
            &&& step.after.cell_type == 5
            &&& step.after.string_value == Some(text)
            &&& step.after.column_num == payload[0] + 0x100 * payload[1] + 0x1_0000 * payload[2]
                + 0x100_0000 * payload[3]
            &&& info.value(step.after) == Plain::Text(text)
        }),
{
    lemma_entered(d, id, payload);
    let b = d.begin().after;
    let at = b.record_start;
    let units = crate::utf16::encode_units(text);
    let bytes = crate::utf16::le_bytes(units);
    assert(d.buffer[at + 8] == payload[8] && d.buffer[at + 9] == payload[9]);
    assert(d.buffer[at + 10] == payload[10] && d.buffer[at + 11] == payload[11]);
    assert(d.buffer.subrange(at + 12, at + 12 + 2 * units.len()) =~= bytes) by {
        assert forall|i: int| 0 <= i < bytes.len() implies d.buffer[at + 12 + i] == bytes[i] by {
            assert(d.buffer[at + (12 + i)] == payload[12 + i]);
            assert(payload.subrange(12, (12 + bytes.len()) as int)[i] == payload[12 + i]);
        }
    }
    crate::utf16::law_le_round_trip(units);
    crate::utf16::law_utf16_round_trip(text);
    lemma_placed(d, id, payload);
}

/// A cell with a shared string (0x07) holds the index of the text behind the eighth
/// byte of its payload.
pub proof fn law_shared_string_record(d: Biff, payload: Seq<u8>, index: int, info: BookInfo)
    requires
        d.wf(),
        12 <= payload.len() <= u32::MAX,
        crate::xlsb_laws::holds(d.buffer, d.pos, crate::biff12::record(0x07, payload)),
        index == payload[8] + 0x100 * payload[9] + 0x1_0000 * payload[10] + 0x100_0000
            * payload[11],
        index < info.shared.len(),
    ensures
        ({
            let step = d.worksheet_step();
            &&& step.result == Ok::<bool, Seq<char>>(true)
            &&& step.after.pos == d.pos + crate::biff12::record(0x07, payload).len()
            &&& step.after.row_index == d.row_index
            &&& step.after.read_cell
            &&& step.after.cell_type == 2
            &&& step.after.column_num == payload[0] + 0x100 * payload[1] + 0x1_0000 * payload[2]
                + 0x100_0000 * payload[3]
            &&& info.value(step.after) == Plain::Text(info.shared[index])
        }),
{
    lemma_entered(d, 0x07, payload);
    let at = d.begin().after.record_start;
    assert(d.buffer[at + 8] == payload[8] && d.buffer[at + 9] == payload[9]);
    assert(d.buffer[at + 10] == payload[10] && d.buffer[at + 11] == payload[11]);
    lemma_placed(d, 0x07, payload);
}

/// A packed number (0x02): behind the eighth byte of the payload stand 30 bits of an
/// integer or, as the upper bits of a double, of any number, with two flags below
/// them. The first says that the value is a hundredth of the number, the second that
/// the bits are an integer.
pub proof fn law_packed_number_record(d: Biff, payload: Seq<u8>, n: int, hundredth: bool)
    requires
        d.wf(),
        12 <= payload.len() <= u32::MAX,
        crate::xlsb_laws::holds(d.buffer, d.pos, crate::biff12::record(0x02, payload)),
    ensures
        ({
            let step = d.worksheet_step();
            let raw = payload[8] + 0x100 * payload[9] + 0x1_0000 * payload[10] + 0x100_0000
                * payload[11];
            let flag: int = if hundredth {
                1
            } else {
                0
            };
            &&& step.result == Ok::<bool, Seq<char>>(true)
            &&& step.after.pos == d.pos + crate::biff12::record(0x02, payload).len()
            &&& step.after.row_index == d.row_index
            &&& step.after.read_cell
            &&& step.after.cell_type == 3
            &&& step.after.column_num == payload[0] + 0x100 * payload[1] + 0x1_0000 * payload[2]
                + 0x100_0000 * payload[3]
            &&& 0 <= n < 0x2000_0000 && raw == 4 * n + 2 + flag ==> step.after.double_val
                == if hundredth {
                Number::Hundredths(crate::number::double_of_int(n) as u64)
            } else {
                Number::Double(crate::number::double_of_int(n) as u64)
            }
            &&& -0x2000_0000 <= n < 0 && raw == 0x1_0000_0000 + 4 * n + 2 + flag
                ==> step.after.double_val == if hundredth {
                Number::Hundredths(crate::number::double_of_int(n) as u64)
            } else {
                Number::Double(crate::number::double_of_int(n) as u64)
            }
            &&& 0 <= n < 0x4000_0000 && raw == 4 * n + flag ==> step.after.double_val
                == if hundredth {
                Number::Hundredths((n * 0x4_0000_0000) as u64)
            } else {
                Number::Double((n * 0x4_0000_0000) as u64)
            }
        }),
{
    lemma_entered(d, 0x02, payload);
    let at = d.begin().after.record_start;
    assert(d.buffer[at + 8] == payload[8] && d.buffer[at + 9] == payload[9]);
    assert(d.buffer[at + 10] == payload[10] && d.buffer[at + 11] == payload[11]);
    lemma_placed(d, 0x02, payload);
    let raw = (payload[8] + 0x100 * payload[9] + 0x1_0000 * payload[10] + 0x100_0000
        * payload[11]) as u32;
    assert(d.worksheet_step().after.double_val == crate::biff_reader::rk_value(raw));
    if raw % 4 >= 2 {
        assert(raw == 4 * n + 2 ==> (4 * n + 2) / 4 == n);
        assert(raw == 4 * n + 3 ==> (4 * n + 3) / 4 == n);
        assert(raw == 0x1_0000_0000 + 4 * n + 2 && n >= -0x2000_0000 ==> (4 * n + 2) / 4 == n);
        assert(raw == 0x1_0000_0000 + 4 * n + 3 && n >= -0x2000_0000 ==> (4 * n + 3) / 4 == n);
    }
}

/// Blank cells (0x01), errors (0x03) and errors that formulas give (0x0b) are empty.
pub proof fn law_cells_without_values_are_empty(
    d: Biff,
    id: u32,
    payload: Seq<u8>,
    info: BookInfo,
)
    requires
        d.wf(),
        id == 0x01 || id == 0x03 || id == 0x0b,
        8 <= payload.len() <= u32::MAX,
        crate::xlsb_laws::holds(d.buffer, d.pos, crate::biff12::record(id as nat, payload)),
    ensures
        ({
            let step = d.worksheet_step();
            &&& step.result == Ok::<bool, Seq<char>>(true)
            &&& step.after.pos == d.pos + crate::biff12::record(id as nat, payload).len()
            &&& step.after.row_index == d.row_index
            &&& step.after.read_cell
            &&& step.after.column_num == payload[0] + 0x100 * payload[1] + 0x1_0000 * payload[2]
                + 0x100_0000 * payload[3]
            &&& info.value(step.after) == Plain::Empty
        }),
{
    lemma_entered(d, id, payload);
    lemma_placed(d, id, payload);
}

/// A value that is put at a column stands there, whatever the row held; what stood at
/// other columns stays, and columns in between that the row did not reach are empty.
pub proof fn law_cell_stands_at_its_column(row: Seq<Cell>, col: int, value: Plain)
    requires
        col >= 0,
    ensures
        ({
            let new = crate::xlsb_reader::with_cell(row, col, value);
            &&& new.len() == if row.len() > col {
                row.len() as int
            } else {
                col + 1
            }
            &&& new[col] == Cell { value, format: None }
            &&& forall|i: int| 0 <= i < row.len() && i != col ==> #[trigger] new[i] == row[i]
            &&& forall|i: int|
                row.len() <= i < col ==> #[trigger] new[i] == Cell {
                    value: Plain::Empty,
                    format: None,
                }
        }),
{
}

/// In the row at hand, a cell record puts its value at its column, whatever the row
/// holds so far: what stands at other columns stays, columns in between that the row
/// did not reach are empty, and reading goes on behind the record. A column beyond
/// those that Excel has, from 16384 on, is refused.
pub proof fn law_cell_record_fills_its_column(
    info: BookInfo,
    d: Biff,
    row: Seq<Cell>,
    fields: int,
    pending: int,
) -> (new: Seq<Cell>)
    requires
        d.wf(),
        d.worksheet_step().result == Ok::<bool, Seq<char>>(true),
        d.worksheet_step().after.read_cell,
        d.worksheet_step().after.row_index == pending,
    ensures
        ({
            let after = d.worksheet_step().after;
            let col = after.column_num;
            let read = crate::xlsb_reader::row_from(info, d, row, fields, pending);
            &&& !(0 <= col < 16_384) ==> read.result is Err
            &&& 0 <= col < 16_384 ==> {
                &&& read == crate::xlsb_reader::row_from(
                    info,
                    after,
                    new,
                    if col + 1 > fields {
                        col + 1
                    } else {
                        fields
                    },
                    pending,
                )
                &&& new.len() == if row.len() > col {
                    row.len() as int
                } else {
                    col + 1
                }
                &&& new[col].value == info.value(after)
                &&& forall|i: int| 0 <= i < row.len() && i != col ==> #[trigger] new[i] == row[i]
                &&& forall|i: int|
                    row.len() <= i < col ==> (#[trigger] new[i]).value == Plain::Empty
            }
        }),
{
    let after = d.worksheet_step().after;
    let col = after.column_num;
    crate::xlsb_reader::lemma_step_advances(d);
    if 0 <= col < 16_384 {
        law_cell_stands_at_its_column(row, col, info.value(after));
    }
    crate::xlsb_reader::with_cell(row, col, info.value(after))
}

/// The header of another row ends the row at hand, and says which row follows. A row
/// beyond those that Excel has, from 1048576 on, is refused.
pub proof fn law_next_row_header_ends_the_row(
    info: BookInfo,
    d: Biff,
    row: Seq<Cell>,
    fields: int,
    pending: int,
)
    requires
        d.wf(),
        d.worksheet_step().result == Ok::<bool, Seq<char>>(true),
        d.worksheet_step().after.row_index >= 0,
        d.worksheet_step().after.row_index != pending,
    ensures
        ({
            let next = d.worksheet_step().after.row_index;
            let read = crate::xlsb_reader::row_from(info, d, row, fields, pending);
            &&& read.row == row
            &&& next < 1_048_576 ==> read.result == Ok::<RowStop, Seq<char>>(
                RowStop::NextRow(next as i32),
            )
            &&& next >= 1_048_576 ==> read.result is Err
        }),
{
    crate::xlsb_reader::lemma_step_advances(d);
}

/// The number format of a cell format (0x2f among the cell formats) is the one that the
/// third and the fourth byte of its record name.
pub proof fn law_cell_format_record(d: Biff, payload: Seq<u8>)
    requires
        d.wf(),
        4 <= payload.len() <= u32::MAX,
        crate::xlsb_laws::holds(d.buffer, d.pos, crate::biff12::record(0x2f, payload)),
    ensures
        ({
            let step = d.styles_step();
            &&& step.result == Ok::<bool, Seq<char>>(true)
            &&& step.after.pos == d.pos + crate::biff12::record(0x2f, payload).len()
            &&& step.after.custom_num_fmts == d.custom_num_fmts
            &&& d.in_cell_xf ==> step.after.xf_index_to_num_fmt_id == d.xf_index_to_num_fmt_id.push(
                (payload[2] + 0x100 * payload[3]) as u16,
            )
            &&& !d.in_cell_xf ==> step.after.xf_index_to_num_fmt_id == d.xf_index_to_num_fmt_id
        }),
{
    crate::xlsb_part_laws::lemma_begin_record(d, 0x2f, payload);
    lemma_entered(d, 0x2f, payload);
    let at = d.begin().after.record_start;
    assert(d.buffer[at + 2] == payload[2] && d.buffer[at + 3] == payload[3]);
}

/// A number format (0x2c among the number formats) has the id that the first two bytes
/// of its record name and the code behind them: its number of UTF-16 code units in four
/// bytes, and the units. It is a date format exactly if its code shows dates.
pub proof fn law_number_format_record(d: Biff, payload: Seq<u8>, code: Seq<char>)
    requires
        d.wf(),
        d.in_number_format,
        ({
            let bytes = crate::utf16::le_bytes(crate::utf16::encode_units(code));
            &&& 6 + bytes.len() <= payload.len() <= u32::MAX
            &&& payload[2] + 0x100 * payload[3] + 0x1_0000 * payload[4] + 0x100_0000 * payload[5]
                == crate::utf16::encode_units(code).len()
            &&& payload.subrange(6, (6 + bytes.len()) as int) == bytes
        }),
        crate::xlsb_laws::holds(d.buffer, d.pos, crate::biff12::record(0x2c, payload)),
    ensures
        ({
            let step = d.styles_step();
            let id = (payload[0] + 0x100 * payload[1]) as u16;
            &&& step.result == Ok::<bool, Seq<char>>(true)
            &&& step.after.pos == d.pos + crate::biff12::record(0x2c, payload).len()
            &&& step.after.xf_index_to_num_fmt_id == d.xf_index_to_num_fmt_id
            &&& crate::formats::is_date_code(code) ==> step.after.custom_num_fmts
                == d.custom_num_fmts.insert(id)
            &&& !crate::formats::is_date_code(code) ==> step.after.custom_num_fmts
                == d.custom_num_fmts
        }),
{
    crate::xlsb_part_laws::lemma_begin_record(d, 0x2c, payload);
    lemma_entered(d, 0x2c, payload);
    let b = d.begin().after;
    let at = b.record_start;
    let units = crate::utf16::encode_units(code);
    let bytes = crate::utf16::le_bytes(units);
    assert(d.buffer[at + 0] == payload[0] && d.buffer[at + 1] == payload[1]);
    assert(d.buffer[at + 2] == payload[2] && d.buffer[at + 3] == payload[3]);
    assert(d.buffer[at + 4] == payload[4] && d.buffer[at + 5] == payload[5]);
    assert(d.buffer.subrange(at + 6, at + 6 + 2 * units.len()) =~= bytes) by {
        assert forall|i: int| 0 <= i < bytes.len() implies d.buffer[at + 6 + i] == bytes[i] by {
            assert(d.buffer[at + (6 + i)] == payload[6 + i]);
            assert(payload.subrange(6, (6 + bytes.len()) as int)[i] == payload[6 + i]);
        }
    }
    crate::utf16::law_le_round_trip(units);
    crate::utf16::law_utf16_round_trip(code);
    assert(b.dword(2) == Ok::<u32, Seq<char>>(units.len() as u32));
    assert(b.string(6, units.len() as int) == Ok::<Seq<char>, Seq<char>>(code));
    assert(b.word(0) == Ok::<u16, Seq<char>>((payload[0] + 0x100 * payload[1]) as u16));
    assert(b.in_number_format);
    assert(d.styles_step() == b.format_record());
}

/// An item of the shared-string table (0x13) holds a text: behind a byte of flags its
/// number of UTF-16 code units in four bytes, low byte first, and the units.
pub proof fn law_shared_string_item_record(d: Biff, payload: Seq<u8>, text: Seq<char>)
    requires
        d.wf(),
        ({
            let bytes = crate::utf16::le_bytes(crate::utf16::encode_units(text));
            &&& 5 + bytes.len() <= payload.len() <= u32::MAX
            &&& payload[1] + 0x100 * payload[2] + 0x1_0000 * payload[3] + 0x100_0000 * payload[4]
                == crate::utf16::encode_units(text).len()
            &&& payload.subrange(5, (5 + bytes.len()) as int) == bytes
        }),
        crate::xlsb_laws::holds(d.buffer, d.pos, crate::biff12::record(0x13, payload)),
    ensures
        ({
            let step = d.shared_strings_step();
            &&& step.result == Ok::<bool, Seq<char>>(true)
            &&& step.after.pos == d.pos + crate::biff12::record(0x13, payload).len()
            &&& step.after.shared_string_value == Some(text)
        }),
{
    crate::xlsb_part_laws::lemma_begin_record(d, 0x13, payload);
    lemma_entered(d, 0x13, payload);
    let b = d.begin().after;
    let at = b.record_start;
    let units = crate::utf16::encode_units(text);
    let bytes = crate::utf16::le_bytes(units);
    assert(d.buffer[at + 1] == payload[1] && d.buffer[at + 2] == payload[2]);
    assert(d.buffer[at + 3] == payload[3] && d.buffer[at + 4] == payload[4]);
    assert(d.buffer.subrange(at + 5, at + 5 + 2 * units.len()) =~= bytes) by {
        assert forall|i: int| 0 <= i < bytes.len() implies d.buffer[at + 5 + i] == bytes[i] by {
            assert(d.buffer[at + (5 + i)] == payload[5 + i]);
            assert(payload.subrange(5, (5 + bytes.len()) as int)[i] == payload[5 + i]);
        }
    }
    crate::utf16::law_le_round_trip(units);
    crate::utf16::law_utf16_round_trip(text);
    let s = Biff { shared_string_value: None, ..b };
    assert(s.dword(1) == Ok::<u32, Seq<char>>(units.len() as u32));
    assert(s.string(5, units.len() as int) == Ok::<Seq<char>, Seq<char>>(text));
}

/// The header of the shared-string table (0x9f) says by its bytes 4 to 7, low byte
/// first, how many texts the table holds. It is no item.
pub proof fn law_shared_string_count_record(d: Biff, payload: Seq<u8>)
    requires
        d.wf(),
        8 <= payload.len() <= u32::MAX,
        crate::xlsb_laws::holds(d.buffer, d.pos, crate::biff12::record(0x9f, payload)),
    ensures
        ({
            let step = d.shared_strings_step();
            &&& step.result == Ok::<bool, Seq<char>>(true)
            &&& step.after.pos == d.pos + crate::biff12::record(0x9f, payload).len()
            &&& step.after.shared_string_value is None
            &&& step.after.shared_string_unique_count == payload[4] + 0x100 * payload[5] + 0x1_0000
                * payload[6] + 0x100_0000 * payload[7]
        }),
{
    lemma_entered(d, 0x9f, payload);
    let at = d.begin().after.record_start;
    assert(d.buffer[at + 4] == payload[4] && d.buffer[at + 5] == payload[5]);
    assert(d.buffer[at + 6] == payload[6] && d.buffer[at + 7] == payload[7]);
}

/// The number formats stand between the records 0x267 and 0x268, the cell styles
/// between 0x269 and 0x26a. Each of the four opens or closes its own section, leaves
/// the other as it was and adds nothing.
pub proof fn law_style_sections(d: Biff, id: u32, payload: Seq<u8>)
    requires
        d.wf(),
        0x267 <= id <= 0x26a,
        payload.len() <= u32::MAX,
        crate::xlsb_laws::holds(d.buffer, d.pos, crate::biff12::record(id as nat, payload)),
    ensures
        ({
            let step = d.styles_step();
            &&& step.result == Ok::<bool, Seq<char>>(true)
            &&& step.after.pos == d.pos + crate::biff12::record(id as nat, payload).len()
            &&& id == 0x267 ==> step.after.in_number_format
            &&& id == 0x268 ==> !step.after.in_number_format
            &&& id == 0x269 ==> step.after.in_cell_xf
            &&& id == 0x26a ==> !step.after.in_cell_xf
            &&& id <= 0x268 ==> step.after.in_cell_xf == d.in_cell_xf
            &&& id >= 0x269 ==> step.after.in_number_format == d.in_number_format
            &&& step.after.xf_index_to_num_fmt_id == d.xf_index_to_num_fmt_id
            &&& step.after.custom_num_fmts == d.custom_num_fmts
        }),
{
    crate::xlsb_part_laws::lemma_begin_record(d, id, payload);
    lemma_entered(d, id, payload);
}

} // verus!
