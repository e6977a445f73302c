//! Cells and rows of an XLSB worksheet as bytes.

use vstd::prelude::*;
use crate::big_buffer::{push_u32_le, push_u64_le};
use crate::error::{invalid, SpreadsheetResult};
use crate::formats::{borrow_cell, get_format, CellValue, CellValueRef};
use crate::number::{as_packed_integer, double_bits, NumberTable, RK_LOWER, RK_UPPER};
use crate::sheet_tables::SheetTables;

verus! {

/// The lower 32 bits of a number.
pub open spec fn low32(n: int) -> u32 {
    (n % 0x1_0000_0000) as u32
}

/// A row header: the row, and the columns from `start_col` up to `end_col`.
pub open spec fn row_header(row: u32, start_col: int, end_col: int) -> Seq<u8> {
    seq![0u8, 25u8] + crate::big_buffer::le32(row) + crate::big_buffer::le32(0) + seq![
        44u8,
        1u8,
        0u8,
        0u8,
        0u8,
        1u8,
        0u8,
        0u8,
        0u8,
    ] + crate::big_buffer::le32(low32(start_col)) + crate::big_buffer::le32(low32(end_col))
}

/// The column and the style of a cell record.
pub open spec fn cell_start(col: int, style: u8) -> Seq<u8> {
    crate::big_buffer::le32(low32(col)) + seq![style, 0u8, 0u8, 0u8]
}

/// A cell with a packed integer.
pub open spec fn rk_cell(val: int, col: int, style: u8) -> Seq<u8> {
    seq![2u8, 12u8] + cell_start(col, style) + crate::big_buffer::le32(low32(4 * val + 2))
}

/// A cell with a double.
pub open spec fn double_cell(bits: u64, col: int, style: u8) -> Seq<u8> {
    seq![5u8, 16u8] + cell_start(col, style) + crate::big_buffer::le64(bits)
}

/// A cell with a truth value.
pub open spec fn bool_cell(val: bool, col: int) -> Seq<u8> {
    seq![4u8, 9u8] + cell_start(col, 0) + seq![
        if val {
            1u8
        } else {
            0u8
        },
    ]
}

/// A cell that points at a shared string.
pub open spec fn sst_cell(index: int, col: int, style: u8) -> Seq<u8> {
    seq![7u8, 12u8] + cell_start(col, style) + crate::big_buffer::le32(low32(index))
}

/// The lower 32 bits of a number.
pub fn to_low32(n: u64) -> (r: u32)
    ensures
        r == low32(n as int),
{
    (n % 0x1_0000_0000) as u32
}

/// Appends a row header.
pub fn push_row_header(out: &mut Vec<u8>, row: u32, start_col: usize, end_col: usize)
    ensures
        final(out)@ == old(out)@ + row_header(row, start_col as int, end_col as int),
{
    let ghost before = out@;
    out.push(0);
    out.push(25);
    push_u32_le(out, row);
    push_u32_le(out, 0);
    out.push(44);
    out.push(1);
    out.push(0);
    out.push(0);
    out.push(0);
    out.push(1);
    out.push(0);
    out.push(0);
    out.push(0);
    push_u32_le(out, to_low32(start_col as u64));
    push_u32_le(out, to_low32(end_col as u64));
    assert(out@ =~= before + row_header(row, start_col as int, end_col as int));
}

fn push_cell_start(out: &mut Vec<u8>, col: usize, style: u8)
    ensures
        final(out)@ == old(out)@ + cell_start(col as int, style),
{
    let ghost before = out@;
    push_u32_le(out, to_low32(col as u64));
    out.push(style);
    out.push(0);
    out.push(0);
    out.push(0);
    assert(out@ =~= before + cell_start(col as int, style));
}

/// Appends a cell with a packed integer.
pub fn push_rk(out: &mut Vec<u8>, val: i32, col: usize, style: u8)
    ensures
        final(out)@ == old(out)@ + rk_cell(val as int, col as int, style),
{
    let ghost before = out@;
    out.push(2);
    out.push(12);
    push_cell_start(out, col, style);
    let raw: u64 = (4 * (val as i64) + 2 + 0x4_0000_0000) as u64;
    assert(raw as int % 0x1_0000_0000 == (4 * val + 2) % 0x1_0000_0000);
    push_u32_le(out, to_low32(raw));
    assert(out@ =~= before + rk_cell(val as int, col as int, style));
}

/// Appends a cell with a double.
pub fn push_double(out: &mut Vec<u8>, bits: u64, col: usize, style: u8)
    ensures
        final(out)@ == old(out)@ + double_cell(bits, col as int, style),
{
    let ghost before = out@;
    out.push(5);
    out.push(16);
    push_cell_start(out, col, style);
    push_u64_le(out, bits);
    assert(out@ =~= before + double_cell(bits, col as int, style));
}

/// Appends a cell with a truth value.
pub fn push_bool(out: &mut Vec<u8>, val: bool, col: usize)
    ensures
        final(out)@ == old(out)@ + bool_cell(val, col as int),
{
    let ghost before = out@;
    out.push(4);
    out.push(9);
    push_cell_start(out, col, 0);
    out.push(
        if val {
            1
        } else {
            0
        },
    );
    assert(out@ =~= before + bool_cell(val, col as int));
}

/// Appends a cell that points at a shared string.
pub fn push_sst(out: &mut Vec<u8>, index: usize, col: usize, style: u8)
    ensures
        final(out)@ == old(out)@ + sst_cell(index as int, col as int, style),
{
    let ghost before = out@;
    out.push(7);
    out.push(12);
    push_cell_start(out, col, style);
    push_u32_le(out, to_low32(index as u64));
    assert(out@ =~= before + sst_cell(index as int, col as int, style));
}

/// What rendering leads to: the shared tables behind it, its bytes, and whether
/// the formats could all be registered.
pub struct Binary {
    pub tables: crate::sheet_tables::Tables,
    pub bytes: Seq<u8>,
    pub complete: bool,
}

/// The largest number of formats of a workbook.
pub const MAX_FORMATS: usize = 251;

/// The format, if there is one, has its place or gets the next one.
pub open spec fn format_fits(
    tables: crate::sheet_tables::Tables,
    format: Option<Seq<char>>,
) -> bool {
    match format {
        Some(format) => crate::string_table::position(tables.formats, format) is Some
            || tables.formats.len() != 251,
        None => true,
    }
}

/// The number of a cell, packed where it is a small integer.
pub open spec fn number_cell(bits: u64, col: int, style: u8) -> Seq<u8> {
    match crate::number::packed_integer(bits) {
        Some(n) => rk_cell(n, col, style),
        None => double_cell(bits, col, style),
    }
}

/// The value of a cell. Texts are shared, a truth value has no style, and a date
/// without a format has style 1.
pub open spec fn value_cell(
    tables: crate::sheet_tables::Tables,
    value: crate::formats::Plain,
    style: Option<int>,
    col: int,
    numbers: NumberTable,
) -> Binary {
    let plain = match style {
        Some(s) => s as u8,
        None => 0u8,
    };
    let dated = match style {
        Some(s) => s as u8,
        None => 1u8,
    };
    match value {
        crate::formats::Plain::Empty => Binary { tables, bytes: Seq::empty(), complete: true },
        crate::formats::Plain::Integer(n) => Binary {
            tables,
            bytes: if RK_LOWER <= n <= RK_UPPER {
                rk_cell(n as int, col, plain)
            } else {
                double_cell(crate::number::double_of_int(n as int) as u64, col, plain)
            },
            complete: true,
        },
        crate::formats::Plain::Number(n) => Binary {
            tables,
            bytes: number_cell(numbers.bits(n), col, plain),
            complete: true,
        },
        crate::formats::Plain::Boolean(b) => Binary {
            tables,
            bytes: bool_cell(b, col),
            complete: true,
        },
        crate::formats::Plain::DateTime(d) => Binary {
            tables,
            bytes: double_cell(numbers.bits(d), col, dated),
            complete: true,
        },
        crate::formats::Plain::Text(s) => Binary {
            tables: tables.with_string(s),
            bytes: sst_cell(tables.string_index(s), col, plain),
            complete: true,
        },
    }
}

/// A cell.
#[verifier::opaque]
pub open spec fn cell(
    tables: crate::sheet_tables::Tables,
    cell: crate::formats::Cell,
    col: int,
    numbers: NumberTable,
) -> Binary {
    if format_fits(tables, cell.format) {
        value_cell(
            tables.with_format(cell.format),
            cell.value,
            tables.style_for(cell.format),
            col,
            numbers,
        )
    } else {
        Binary { tables, bytes: Seq::empty(), complete: false }
    }
}

/// The first `n` cells of a row, up to one whose format cannot be registered.
pub open spec fn cells(
    tables: crate::sheet_tables::Tables,
    row: Seq<crate::formats::Cell>,
    n: nat,
    numbers: NumberTable,
) -> Binary
    decreases n,
{
    if n == 0 {
        Binary { tables, bytes: Seq::empty(), complete: true }
    } else {
        let before = cells(tables, row, (n - 1) as nat, numbers);
        if before.complete {
            let last = cell(before.tables, row[n - 1], n - 1, numbers);
            Binary {
                tables: last.tables,
                bytes: before.bytes + last.bytes,
                complete: last.complete,
            }
        } else {
            before
        }
    }
}

/// A row with its header.
#[verifier::opaque]
pub open spec fn row(
    tables: crate::sheet_tables::Tables,
    line: Seq<crate::formats::Cell>,
    row_num: u32,
    columns: int,
    numbers: NumberTable,
) -> Binary {
    let inner = cells(tables, line, line.len(), numbers);
    Binary { bytes: row_header(row_num, 0, columns) + inner.bytes, ..inner }
}

/// The first `n` rows of a sheet, numbered from `first`.
pub open spec fn rows(
    tables: crate::sheet_tables::Tables,
    sheet: Seq<Seq<crate::formats::Cell>>,
    n: nat,
    first: int,
    columns: int,
    numbers: NumberTable,
) -> Binary
    decreases n,
{
    if n == 0 {
        Binary { tables, bytes: Seq::empty(), complete: true }
    } else {
        let before = rows(tables, sheet, (n - 1) as nat, first, columns, numbers);
        if before.complete {
            let last = row(
                before.tables,
                sheet[n - 1],
                (first + n - 1) as u32,
                columns,
                numbers,
            );
            Binary {
                tables: last.tables,
                bytes: before.bytes + last.bytes,
                complete: last.complete,
            }
        } else {
            before
        }
    }
}

/// The first `n` cells of a header row, all in style 3.
pub open spec fn header_cells(
    tables: crate::sheet_tables::Tables,
    headers: Seq<Seq<char>>,
    n: nat,
) -> Binary
    decreases n,
{
    if n == 0 {
        Binary { tables, bytes: Seq::empty(), complete: true }
    } else {
        let before = header_cells(tables, headers, (n - 1) as nat);
        let text = headers[n - 1];
        Binary {
            tables: before.tables.with_string(text),
            bytes: before.bytes + sst_cell(before.tables.string_index(text), n - 1, 3),
            complete: true,
        }
    }
}

/// The header row, nothing where there are no headers.
pub open spec fn header_row(
    tables: crate::sheet_tables::Tables,
    headers: Option<Seq<Seq<char>>>,
    columns: int,
) -> Binary {
    match headers {
        Some(h) => {
            let inner = header_cells(tables, h, h.len());
            Binary { bytes: row_header(0, 0, columns) + inner.bytes, ..inner }
        },
        None => Binary { tables, bytes: Seq::empty(), complete: true },
    }
}

/// Appends a cell.
pub fn push_cell(
    tables: &mut SheetTables,
    out: &mut Vec<u8>,
    raw: &CellValue,
    col: usize,
    numbers: &NumberTable,
) -> (r: SpreadsheetResult<()>)
    requires
        old(tables).wf(),
        old(tables)@.has_room(1),
        old(tables)@.formats.len() <= 251,
    ensures
        final(tables).wf(),
        ({
            let b = cell(old(tables)@, raw@, col as int, *numbers);
            &&& final(tables)@ == b.tables
            &&& final(out)@ == old(out)@ + b.bytes
            &&& match r {
                Ok(_) => b.complete,
                Err(e) => !b.complete && e.says("too many custom number formats for XLSB"@),
            }
        }),
        final(tables)@.grown(old(tables)@, 1),
        final(tables)@.formats.len() <= 251,
{
    reveal(cell);
    let ghost before = out@;
    assert(before + Seq::<u8>::empty() =~= before);
    let style: Option<u8> = match get_format(raw) {
        Some(format) => {
            if tables.formats.find(format).is_none() && tables.formats.len() == MAX_FORMATS {
                return Err(invalid("too many custom number formats for XLSB"));
            }
            proof {
                crate::string_table::lemma_position(tables@.formats, format@);
            }
            let style: usize = tables.register_format(format);
            Some(style as u8)
        },
        None => None,
    };
    let plain: u8 = match style {
        Some(s) => s,
        None => 0,
    };
    match borrow_cell(raw) {
        CellValueRef::Empty => {},
        CellValueRef::Integer(n) => {
            if RK_LOWER <= n && n <= RK_UPPER {
                push_rk(out, n as i32, col, plain);
            } else {
                push_double(out, double_bits(n), col, plain);
            }
        },
        CellValueRef::Number(n) => {
            let bits: u64 = numbers.bits_of(n);
            match as_packed_integer(bits) {
                Some(n) => push_rk(out, n, col, plain),
                None => push_double(out, bits, col, plain),
            }
        },
        CellValueRef::Boolean(b) => push_bool(out, b, col),
        CellValueRef::DateTime(d) => {
            let dated: u8 = match style {
                Some(s) => s,
                None => 1,
            };
            push_double(out, numbers.bits_of(d), col, dated);
        },
        CellValueRef::Text(s) => {
            let index: usize = tables.intern_string(s);
            push_sst(out, index, col, plain);
        },
    }
    Ok(())
}

/// Appends the cells of a row.
pub fn push_cells(
    tables: &mut SheetTables,
    out: &mut Vec<u8>,
    line: &[CellValue],
    numbers: &NumberTable,
) -> (r: SpreadsheetResult<()>)
    requires
        old(tables).wf(),
        old(tables)@.has_room(line@.len() as int),
        old(tables)@.formats.len() <= 251,
    ensures
        final(tables).wf(),
        ({
            let b = cells(
                old(tables)@,
                crate::formats::row_cells(line@),
                line@.len(),
                *numbers,
            );
            &&& final(tables)@ == b.tables
            &&& final(out)@ == old(out)@ + b.bytes
            &&& match r {
                Ok(_) => b.complete,
                Err(e) => !b.complete && e.says("too many custom number formats for XLSB"@),
            }
        }),
        final(tables)@.grown(old(tables)@, line@.len() as int),
        final(tables)@.formats.len() <= 251,
{
    let ghost start = tables@;
    let ghost before = out@;
    let ghost content = crate::formats::row_cells(line@);
    let mut i: usize = 0;
    assert(before + Seq::<u8>::empty() =~= before);
    while i < line.len()
        invariant
            i <= line.len(),
            start == old(tables)@,
            before == old(out)@,
            tables.wf(),
            start.has_room(line@.len() as int),
            content == crate::formats::row_cells(line@),
            cells(start, content, i as nat, *numbers).complete,
            tables@ == cells(start, content, i as nat, *numbers).tables,
            out@ == before + cells(start, content, i as nat, *numbers).bytes,
            tables@.grown(start, i as int),
            tables@.formats.len() <= 251,
        decreases line.len() - i,
    {
        let ghost mid = tables@;
        assert(content[i as int] == line@[i as int]@);
        let r = push_cell(tables, out, &line[i], i, numbers);
        proof {
            crate::sheet_tables::lemma_grown_trans(start, mid, tables@, i as int, 1);
            assert(out@ =~= before + cells(start, content, i as nat + 1, *numbers).bytes);
        }
        match r {
            Ok(_) => {},
            Err(e) => {
                proof {
                    lemma_cells_stop(start, content, i as nat + 1, line@.len(), *numbers);
                    crate::sheet_tables::lemma_grown_more(tables@, start, i + 1, line@.len() as int);
                }
                return Err(e);
            },
        }
        i += 1;
    }
    Ok(())
}

proof fn lemma_cells_stop(
    tables: crate::sheet_tables::Tables,
    line: Seq<crate::formats::Cell>,
    m: nat,
    n: nat,
    numbers: NumberTable,
)
    requires
        m <= n,
        !cells(tables, line, m, numbers).complete,
    ensures
        cells(tables, line, n, numbers) == cells(tables, line, m, numbers),
    decreases n - m,
{
    if m < n {
        lemma_cells_stop(tables, line, m, (n - 1) as nat, numbers);
    }
}

/// Appends a row with its header.
pub fn push_row(
    tables: &mut SheetTables,
    out: &mut Vec<u8>,
    line: &[CellValue],
    row_num: u32,
    columns: usize,
    numbers: &NumberTable,
) -> (r: SpreadsheetResult<()>)
    requires
        old(tables).wf(),
        old(tables)@.has_room(line@.len() as int),
        old(tables)@.formats.len() <= 251,
    ensures
        final(tables).wf(),
        ({
            let b = row(
                old(tables)@,
                crate::formats::row_cells(line@),
                row_num,
                columns as int,
                *numbers,
            );
            &&& final(tables)@ == b.tables
            &&& final(out)@ == old(out)@ + b.bytes
            &&& match r {
                Ok(_) => b.complete,
                Err(e) => !b.complete && e.says("too many custom number formats for XLSB"@),
            }
        }),
        final(tables)@.grown(old(tables)@, line@.len() as int),
        final(tables)@.formats.len() <= 251,
{
    reveal(row);
    let ghost before = out@;
    push_row_header(out, row_num, 0, columns);
    let ghost t = tables@;
    let r = push_cells(tables, out, line, numbers);
    assert(out@ =~= before + row(
        t,
        crate::formats::row_cells(line@),
        row_num,
        columns as int,
        *numbers,
    ).bytes);
    r
}

proof fn lemma_rows_stop(
    tables: crate::sheet_tables::Tables,
    sheet: Seq<Seq<crate::formats::Cell>>,
    m: nat,
    n: nat,
    first: int,
    columns: int,
    numbers: NumberTable,
)
    requires
        m <= n,
        !rows(tables, sheet, m, first, columns, numbers).complete,
    ensures
        rows(tables, sheet, n, first, columns, numbers) == rows(
            tables,
            sheet,
            m,
            first,
            columns,
            numbers,
        ),
    decreases n - m,
{
    if m < n {
        lemma_rows_stop(tables, sheet, m, (n - 1) as nat, first, columns, numbers);
    }
}

/// Appends the rows of a sheet, numbered from `first`.
pub fn push_rows(
    tables: &mut SheetTables,
    out: &mut Vec<u8>,
    sheet: &Vec<Vec<CellValue>>,
    first: u32,
    columns: usize,
    numbers: &NumberTable,
) -> (r: SpreadsheetResult<()>)
    requires
        old(tables).wf(),
        forall|i: int| 0 <= i < sheet@.len() ==> (#[trigger] sheet@[i])@.len() == columns,
        old(tables)@.has_room(sheet@.len() * columns),
        old(tables)@.formats.len() <= 251,
        first + sheet@.len() <= u32::MAX,
    ensures
        final(tables).wf(),
        ({
            let b = rows(
                old(tables)@,
                crate::formats::sheet_cells(sheet@),
                sheet@.len(),
                first as int,
                columns as int,
                *numbers,
            );
            &&& final(tables)@ == b.tables
            &&& final(out)@ == old(out)@ + b.bytes
            &&& match r {
                Ok(_) => b.complete,
                Err(e) => !b.complete && e.says("too many custom number formats for XLSB"@),
            }
        }),
        final(tables)@.grown(old(tables)@, sheet@.len() * columns),
        final(tables)@.formats.len() <= 251,
{
    let ghost start = tables@;
    let ghost before = out@;
    let ghost content = crate::formats::sheet_cells(sheet@);
    let mut i: usize = 0;
    assert(before + Seq::<u8>::empty() =~= before);
    while i < sheet.len()
        invariant
            i <= sheet.len(),
            start == old(tables)@,
            before == old(out)@,
            tables.wf(),
            forall|i: int| 0 <= i < sheet@.len() ==> (#[trigger] sheet@[i])@.len() == columns,
            start.has_room(sheet@.len() * columns),
            first + sheet@.len() <= u32::MAX,
            content == crate::formats::sheet_cells(sheet@),
            rows(start, content, i as nat, first as int, columns as int, *numbers).complete,
            tables@ == rows(
                start,
                content,
                i as nat,
                first as int,
                columns as int,
                *numbers,
            ).tables,
            out@ == before + rows(
                start,
                content,
                i as nat,
                first as int,
                columns as int,
                *numbers,
            ).bytes,
            tables@.grown(start, i * columns),
            tables@.formats.len() <= 251,
        decreases sheet.len() - i,
    {
        let ghost mid = tables@;
        proof {
            assert(i * columns + columns == (i + 1) * columns) by (nonlinear_arith);
            assert((i + 1) * columns <= sheet@.len() * columns) by (nonlinear_arith)
                requires
                    i + 1 <= sheet@.len(),
            ;
            assert(content[i as int] == crate::formats::row_cells(sheet@[i as int]@));
        }
        let r = push_row(tables, out, sheet[i].as_slice(), first + i as u32, columns, numbers);
        proof {
            crate::sheet_tables::lemma_grown_trans(
                start,
                mid,
                tables@,
                i * columns,
                columns as int,
            );
            assert(out@ =~= before + rows(
                start,
                content,
                i as nat + 1,
                first as int,
                columns as int,
                *numbers,
            ).bytes);
        }
        match r {
            Ok(_) => {},
            Err(e) => {
                proof {
                    lemma_rows_stop(
                        start,
                        content,
                        i as nat + 1,
                        sheet@.len(),
                        first as int,
                        columns as int,
                        *numbers,
                    );
                    crate::sheet_tables::lemma_grown_more(
                        tables@,
                        start,
                        (i + 1) * columns,
                        sheet@.len() * columns,
                    );
                }
                return Err(e);
            },
        }
        i += 1;
    }
    Ok(())
}

/// Appends the header row, nothing where there are no headers.
pub fn push_header_row(
    tables: &mut SheetTables,
    out: &mut Vec<u8>,
    headers: Option<&[String]>,
    columns: usize,
)
    requires
        old(tables).wf(),
        headers matches Some(h) ==> old(tables)@.has_room(h@.len() as int),
    ensures
        final(tables).wf(),
        ({
            let b = header_row(
                old(tables)@,
                crate::xlsx_cells::header_texts(headers),
                columns as int,
            );
            final(tables)@ == b.tables && final(out)@ == old(out)@ + b.bytes && b.complete
        }),
        headers matches Some(h) ==> final(tables)@.grown(old(tables)@, h@.len() as int),
        headers is None ==> final(tables)@ == old(tables)@,
        final(tables)@.formats == old(tables)@.formats,
{
    let ghost start = tables@;
    let ghost before = out@;
    assert(before + Seq::<u8>::empty() =~= before);
    match headers {
        None => {},
        Some(h) => {
            let ghost texts = crate::biff12::texts(h@);
            push_row_header(out, 0, 0, columns);
            let ghost open = out@;
            let mut i: usize = 0;
            assert(open + Seq::<u8>::empty() =~= open);
            while i < h.len()
                invariant
                    i <= h.len(),
                    tables.wf(),
                    start.has_room(h@.len() as int),
                    texts == crate::biff12::texts(h@),
                    tables@ == header_cells(start, texts, i as nat).tables,
                    out@ == open + header_cells(start, texts, i as nat).bytes,
                    header_cells(start, texts, i as nat).complete,
                    tables@.grown(start, i as int),
                    tables@.formats == start.formats,
                decreases h.len() - i,
            {
                let ghost mid = tables@;
                let index: usize = tables.intern_string(h[i].as_str());
                push_sst(out, index, i, 3);
                proof {
                    crate::sheet_tables::lemma_grown_trans(start, mid, tables@, i as int, 1);
                    assert(out@ =~= open + header_cells(start, texts, i as nat + 1).bytes);
                }
                i += 1;
            }
            assert(out@ =~= before + header_row(start, Some(texts), columns as int).bytes);
        },
    }
}

} // verus!
