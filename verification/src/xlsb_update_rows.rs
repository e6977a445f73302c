//! The rows that replace those of an XLSB worksheet, as bytes.
//!
//! Texts go into the workbook's shared strings where it has any, else into the
//! cells themselves. The counts of the shared strings wrap round at 32 bits.

use vstd::prelude::*;
use crate::biff12::{append_bytes, build_record};
use crate::big_buffer::{push_u32_le, push_u64_le};
use crate::formats::{borrow_cell, CellValue, CellValueRef};
use crate::number::{as_packed_integer, double_bits, finite, NumberTable, RK_LOWER, RK_UPPER};
use crate::string_table::StringTable;
use crate::xlsb_cells::{push_row_header, to_low32};
use crate::xlsb_patch::push_counted_units;
use crate::xlsx_update_rows::CellLooks;

verus! {

/// The shared strings of a workbook that is updated: the part that holds them, the
/// texts, how many cells point at them, how many there are by their header, where
/// new ones go, how many of the texts the part does not hold yet, and whether the
/// part has to be written anew.
#[verifier::ext_equal]
pub struct BinStrings {
    pub part: Option<Seq<u8>>,
    pub values: Seq<Seq<char>>,
    pub total: u32,
    pub unique: u32,
    pub end: int,
    pub added: int,
    pub dirty: bool,
}

/// The number behind `n`, zero behind the largest.
pub open spec fn next_count(n: u32) -> u32 {
    if n == u32::MAX {
        0
    } else {
        (n + 1) as u32
    }
}

impl BinStrings {
    /// The shared strings with one more cell that points at a text.
    pub open spec fn with_use(self, text: Seq<char>) -> BinStrings {
        let known = crate::string_table::position(self.values, text) is Some;
        BinStrings {
            values: crate::string_table::with_text(self.values, text),
            unique: if known {
                self.unique
            } else {
                next_count(self.unique)
            },
            added: if known {
                self.added
            } else {
                self.added + 1
            },
            total: next_count(self.total),
            dirty: true,
            ..self
        }
    }

    /// The shared strings once the cells that pointed at them from a sheet are
    /// gone.
    pub open spec fn released(self, refs: int) -> BinStrings {
        if self.part is Some {
            BinStrings {
                total: if self.total < refs {
                    0
                } else {
                    (self.total - refs) as u32
                },
                dirty: true,
                ..self
            }
        } else {
            self
        }
    }
}

/// What rendering leads to: the shared strings behind it, and its bytes.
pub struct Packed {
    pub strings: BinStrings,
    pub bytes: Seq<u8>,
}

/// The column and the style of a cell record.
pub open spec fn cell_place(col: int, style: int) -> Seq<u8> {
    crate::big_buffer::le32(crate::xlsb_cells::low32(col)) + crate::big_buffer::le32(
        crate::xlsb_cells::low32(style),
    )
}

/// A cell with a text.
pub open spec fn text_cell(strings: BinStrings, col: int, style: int, text: Seq<char>) -> Packed {
    if strings.part is None {
        let units = crate::utf16::encode_units(text);
        Packed {
            strings,
            bytes: crate::biff12::record(
                6,
                cell_place(col, style) + crate::big_buffer::le32(
                    crate::xlsb_cells::low32(units.len() as int),
                ) + crate::utf16::le_bytes(units),
            ),
        }
    } else {
        Packed {
            strings: strings.with_use(text),
            bytes: crate::biff12::record(
                7,
                cell_place(col, style) + crate::big_buffer::le32(
                    crate::xlsb_cells::low32(
                        crate::string_table::index_for(strings.values, text),
                    ),
                ),
            ),
        }
    }
}

/// A cell with a packed integer.
pub open spec fn rk_cell(col: int, style: int, n: int) -> Seq<u8> {
    crate::biff12::record(
        2,
        cell_place(col, style) + crate::big_buffer::le32(crate::xlsb_cells::low32(4 * n + 2)),
    )
}

/// A cell with a double.
pub open spec fn double_cell(col: int, style: int, bits: u64) -> Seq<u8> {
    crate::biff12::record(5, cell_place(col, style) + crate::big_buffer::le64(bits))
}

/// A cell with a truth value.
pub open spec fn bool_cell(col: int, style: int, b: bool) -> Seq<u8> {
    crate::biff12::record(
        4,
        cell_place(col, style) + seq![
            if b {
                1u8
            } else {
                0u8
            },
        ],
    )
}

/// A cell of a column. A number that is not finite is written as text, an empty
/// value with a format as an empty text. A date in a column without a style has
/// the style for dates.
pub open spec fn value_cell(
    strings: BinStrings,
    value: crate::formats::Plain,
    col: int,
    looks: crate::xlsx_update_rows::Looks,
    numbers: NumberTable,
) -> Packed {
    let style = crate::xlsx_styles::data_style(looks.cells, crate::xlsb_cells::low32(col) as int);
    match value {
        crate::formats::Plain::Empty => text_cell(strings, col, style, Seq::empty()),
        crate::formats::Plain::Integer(n) => Packed {
            strings,
            bytes: if RK_LOWER <= n <= RK_UPPER {
                rk_cell(col, style, n as int)
            } else {
                double_cell(col, style, crate::number::double_of_int(n as int) as u64)
            },
        },
        crate::formats::Plain::Number(n) => {
            let bits = numbers.bits(n);
            match crate::number::packed_integer(bits) {
                Some(i) => Packed { strings, bytes: rk_cell(col, style, i) },
                None => if crate::number::is_finite(bits) {
                    Packed { strings, bytes: double_cell(col, style, bits) }
                } else {
                    text_cell(strings, col, style, numbers.display(n))
                },
            }
        },
        crate::formats::Plain::Boolean(b) => Packed { strings, bytes: bool_cell(col, style, b) },
        crate::formats::Plain::DateTime(d) => Packed {
            strings,
            bytes: double_cell(
                col,
                if style > 0 {
                    style
                } else {
                    match looks.date {
                        Some(date) => date,
                        None => 0,
                    }
                },
                numbers.bits(d),
            ),
        },
        crate::formats::Plain::Text(s) => text_cell(strings, col, style, s),
    }
}

/// The first `n` cells of a row. One with neither value nor format leaves no
/// trace.
pub open spec fn value_cells(
    strings: BinStrings,
    row: Seq<crate::formats::Cell>,
    n: nat,
    looks: crate::xlsx_update_rows::Looks,
    numbers: NumberTable,
) -> Packed
    decreases n,
{
    if n == 0 {
        Packed { strings, bytes: Seq::empty() }
    } else {
        let before = value_cells(strings, row, (n - 1) as nat, looks, numbers);
        if row[n - 1].value is Empty && row[n - 1].format is None {
            before
        } else {
            let last = value_cell(before.strings, row[n - 1].value, n - 1, looks, numbers);
            Packed { strings: last.strings, bytes: before.bytes + last.bytes }
        }
    }
}

/// The first `n` cells of a header row.
pub open spec fn header_cells(
    strings: BinStrings,
    headers: Seq<Seq<char>>,
    n: nat,
    looks: crate::xlsx_update_rows::Looks,
) -> Packed
    decreases n,
{
    if n == 0 {
        Packed { strings, bytes: Seq::empty() }
    } else {
        let before = header_cells(strings, headers, (n - 1) as nat, looks);
        let last = text_cell(
            before.strings,
            n - 1,
            crate::xlsx_styles::header_style(looks.cells, n - 1),
            headers[n - 1],
        );
        Packed { strings: last.strings, bytes: before.bytes + last.bytes }
    }
}

/// A row: its header, which says that it reaches to a column, and its cells.
pub open spec fn row_bytes(number: int, last_col: int, cells: Seq<u8>) -> Seq<u8> {
    crate::xlsb_cells::row_header(crate::xlsb_cells::low32(number), 0, last_col) + cells
}

/// The first `n` rows of a sheet, numbered from `first` on.
pub open spec fn value_rows(
    strings: BinStrings,
    rows: Seq<Seq<crate::formats::Cell>>,
    n: nat,
    first: int,
    last_col: int,
    looks: crate::xlsx_update_rows::Looks,
    numbers: NumberTable,
) -> Packed
    decreases n,
{
    if n == 0 {
        Packed { strings, bytes: Seq::empty() }
    } else {
        let before = value_rows(strings, rows, (n - 1) as nat, first, last_col, looks, numbers);
        let row = rows[n - 1];
        let last = value_cells(before.strings, row, row.len(), looks, numbers);
        Packed {
            strings: last.strings,
            bytes: before.bytes + row_bytes(first + n - 1, last_col, last.bytes),
        }
    }
}

/// The header row, nothing where there are no headers.
pub open spec fn header_row(
    strings: BinStrings,
    headers: Option<Seq<Seq<char>>>,
    last_col: int,
    looks: crate::xlsx_update_rows::Looks,
) -> Packed {
    match headers {
        Some(h) => {
            let inner = header_cells(strings, h, h.len(), looks);
            Packed { strings: inner.strings, bytes: row_bytes(0, last_col, inner.bytes) }
        },
        None => Packed { strings, bytes: Seq::empty() },
    }
}

/// The rows of a sheet behind its header row.
pub open spec fn sheet_rows(
    strings: BinStrings,
    headers: Option<Seq<Seq<char>>>,
    rows: Seq<Seq<crate::formats::Cell>>,
    last_col: int,
    looks: crate::xlsx_update_rows::Looks,
    numbers: NumberTable,
) -> Packed {
    let header = header_row(strings, headers, last_col, looks);
    let first = if headers is Some {
        1int
    } else {
        0
    };
    let body = value_rows(header.strings, rows, rows.len(), first, last_col, looks, numbers);
    Packed { strings: body.strings, bytes: header.bytes + body.bytes }
}

/// The offset in a row of the number of its last column.
pub const LAST_COLUMN_OFFSET: usize = 23;

/// The number of the last column can be written into a row afterwards: writing it
/// over the bytes at its offset gives the row that says so from the start.
pub proof fn law_last_column_is_written_afterwards(
    number: int,
    early: int,
    late: int,
    cells: Seq<u8>,
)
    ensures
        crate::xlsb_patch::with_u32(
            row_bytes(number, early, cells),
            LAST_COLUMN_OFFSET as int,
            crate::xlsb_cells::low32(late),
        ) == row_bytes(number, late, cells),
{
    assert(crate::xlsb_patch::with_u32(
        row_bytes(number, early, cells),
        LAST_COLUMN_OFFSET as int,
        crate::xlsb_cells::low32(late),
    ) =~= row_bytes(number, late, cells));
}

/// The shared strings of a workbook that is updated.
pub struct BinSharedStrings {
    pub part: Option<Vec<u8>>,
    pub values: StringTable,
    pub total: u32,
    pub unique: u32,
    pub end: usize,
    pub added: usize,
    pub dirty: bool,
}

impl View for BinSharedStrings {
    type V = BinStrings;

    open spec fn view(&self) -> BinStrings {
        BinStrings {
            part: match self.part {
                Some(part) => Some(part@),
                None => None,
            },
            values: self.values@,
            total: self.total,
            unique: self.unique,
            end: self.end as int,
            added: self.added as int,
            dirty: self.dirty,
        }
    }
}

/// No shared strings.
pub open spec fn no_strings() -> BinStrings {
    BinStrings {
        part: None,
        values: Seq::empty(),
        total: 0,
        unique: 0,
        end: 0,
        added: 0,
        dirty: false,
    }
}

impl BinSharedStrings {
    pub open spec fn wf(self) -> bool {
        &&& self.values.wf()
        &&& self.added <= self.values@.len()
        &&& self.part matches Some(part) ==> self.end <= part.len()
    }

    /// No shared strings.
    pub fn new() -> (r: Self)
        ensures
            r.wf(),
            r@ == no_strings(),
    {
        let r = BinSharedStrings {
            part: None,
            values: StringTable::new(),
            total: 0,
            unique: 0,
            end: 0,
            added: 0,
            dirty: false,
        };
        assert(r@ =~= no_strings());
        r
    }

    /// A copy of the shared strings.
    pub fn copy(&self) -> (r: Self)
        requires
            self.wf(),
        ensures
            r.wf(),
            r@ == self@,
    {
        let part = match &self.part {
            Some(part) => Some(vstd::slice::slice_to_vec(part.as_slice())),
            None => None,
        };
        let values = self.values.copy();
        let r = BinSharedStrings {
            part,
            values,
            total: self.total,
            unique: self.unique,
            end: self.end,
            added: self.added,
            dirty: self.dirty,
        };
        assert(r@ =~= self@);
        r
    }

    /// Counts one more cell that points at a text. Returns the index of the text.
    pub fn use_text(&mut self, text: &str) -> (index: usize)
        requires
            old(self).wf(),
        ensures
            final(self).wf(),
            final(self)@ == old(self)@.with_use(text@),
            index == crate::string_table::index_for(old(self)@.values, text@),
    {
        let ghost before = *self;
        let index: usize = match self.values.find(text) {
            Some(i) => i,
            None => {
                let i: usize = self.values.len();
                self.values.push(text);
                let n: usize = self.values.len();
                assert(n == before.values@.len() + 1);
                self.unique = wrapping_next(self.unique);
                self.added = self.added + 1;
                i
            },
        };
        self.total = wrapping_next(self.total);
        self.dirty = true;
        assert(self@ =~= before@.with_use(text@));
        index
    }

    /// Forgets the cells that pointed at the shared strings from a sheet.
    pub fn release(&mut self, refs: usize)
        requires
            old(self).wf(),
        ensures
            final(self).wf(),
            final(self)@ == old(self)@.released(refs as int),
    {
        let ghost before = *self;
        if self.part.is_some() {
            self.total = if (self.total as u64) < refs as u64 {
                0
            } else {
                self.total - refs as u32
            };
            self.dirty = true;
        }
        assert(self@ =~= before@.released(refs as int));
    }
}

fn wrapping_next(n: u32) -> (r: u32)
    ensures
        r == next_count(n),
{
    if n == u32::MAX {
        0
    } else {
        n + 1
    }
}

fn cell_payload(col: usize, style: usize) -> (payload: Vec<u8>)
    ensures
        payload@ == cell_place(col as int, style as int),
{
    let mut payload: Vec<u8> = Vec::new();
    push_u32_le(&mut payload, to_low32(col as u64));
    push_u32_le(&mut payload, to_low32(style as u64));
    assert(payload@ =~= cell_place(col as int, style as int));
    payload
}

fn push_record(out: &mut Vec<u8>, id: u32, payload: &Vec<u8>)
    ensures
        final(out)@ == old(out)@ + crate::biff12::record(id as nat, payload@),
{
    let record = build_record(id, payload);
    append_bytes(out, &record);
}

fn push_text_cell(
    strings: &mut BinSharedStrings,
    out: &mut Vec<u8>,
    col: usize,
    style: usize,
    text: &str,
)
    requires
        old(strings).wf(),
    ensures
        final(strings).wf(),
        ({
            let r = text_cell(old(strings)@, col as int, style as int, text@);
            final(strings)@ == r.strings && final(out)@ == old(out)@ + r.bytes
        }),
{
    let mut payload = cell_payload(col, style);
    if strings.part.is_none() {
        push_counted_units(&mut payload, text);
        push_record(out, 6, &payload);
    } else {
        let index: usize = strings.use_text(text);
        push_u32_le(&mut payload, to_low32(index as u64));
        push_record(out, 7, &payload);
    }
}

fn push_rk_cell(out: &mut Vec<u8>, col: usize, style: usize, n: i32)
    ensures
        final(out)@ == old(out)@ + rk_cell(col as int, style as int, n as int),
{
    let mut payload = cell_payload(col, style);
    let raw: u64 = (4 * (n as i64) + 2 + 0x4_0000_0000) as u64;
    assert(raw as int % 0x1_0000_0000 == (4 * n + 2) % 0x1_0000_0000);
    push_u32_le(&mut payload, to_low32(raw));
    push_record(out, 2, &payload);
}

fn push_double_cell(out: &mut Vec<u8>, col: usize, style: usize, bits: u64)
    ensures
        final(out)@ == old(out)@ + double_cell(col as int, style as int, bits),
{
    let mut payload = cell_payload(col, style);
    push_u64_le(&mut payload, bits);
    push_record(out, 5, &payload);
}

fn push_value_cell(
    strings: &mut BinSharedStrings,
    out: &mut Vec<u8>,
    raw: &CellValue,
    col: usize,
    looks: &CellLooks,
    numbers: &NumberTable,
)
    requires
        old(strings).wf(),
        looks.styles.wf(),
    ensures
        final(strings).wf(),
        ({
            let r = value_cell(old(strings)@, raw@.value, col as int, looks@, *numbers);
            final(strings)@ == r.strings && final(out)@ == old(out)@ + r.bytes
        }),
{
    let style: usize = looks.styles.data_style_of(to_low32(col as u64) as usize);
    match borrow_cell(raw) {
        CellValueRef::Empty => {
            assert("".view() =~= Seq::<char>::empty()) by {
                reveal_strlit("");
            }
            push_text_cell(strings, out, col, style, "");
        },
        CellValueRef::Integer(n) => {
            if RK_LOWER <= n && n <= RK_UPPER {
                push_rk_cell(out, col, style, n as i32);
            } else {
                push_double_cell(out, col, style, double_bits(n));
            }
        },
        CellValueRef::Number(n) => {
            let bits: u64 = numbers.bits_of(n);
            match as_packed_integer(bits) {
                Some(i) => push_rk_cell(out, col, style, i),
                None => {
                    if finite(bits) {
                        push_double_cell(out, col, style, bits);
                    } else {
                        push_text_cell(strings, out, col, style, numbers.display_text(n));
                    }
                },
            }
        },
        CellValueRef::Boolean(b) => {
            let mut payload = cell_payload(col, style);
            payload.push(
                if b {
                    1
                } else {
                    0
                },
            );
            assert(payload@ =~= cell_place(col as int, style as int) + seq![
                if b {
                    1u8
                } else {
                    0u8
                },
            ]);
            push_record(out, 4, &payload);
        },
        CellValueRef::DateTime(d) => {
            let date_style: usize = if style > 0 {
                style
            } else {
                match looks.date {
                    Some(date) => date,
                    None => 0,
                }
            };
            push_double_cell(out, col, date_style, numbers.bits_of(d));
        },
        CellValueRef::Text(s) => {
            push_text_cell(strings, out, col, style, s);
        },
    }
}

/// Appends the cells of a row.
pub fn push_value_cells(
    strings: &mut BinSharedStrings,
    out: &mut Vec<u8>,
    row: &[CellValue],
    looks: &CellLooks,
    numbers: &NumberTable,
)
    requires
        old(strings).wf(),
        looks.styles.wf(),
    ensures
        final(strings).wf(),
        ({
            let cells = crate::formats::row_cells(row@);
            let r = value_cells(old(strings)@, cells, cells.len(), looks@, *numbers);
            final(strings)@ == r.strings && final(out)@ == old(out)@ + r.bytes
        }),
{
    let ghost start = strings@;
    let ghost before = out@;
    let ghost cells = crate::formats::row_cells(row@);
    let mut i: usize = 0;
    assert(before + Seq::<u8>::empty() =~= before);
    while i < row.len()
        invariant
            i <= row.len(),
            strings.wf(),
            looks.styles.wf(),
            cells == crate::formats::row_cells(row@),
            ({
                let r = value_cells(start, cells, i as nat, looks@, *numbers);
                strings@ == r.strings && out@ == before + r.bytes
            }),
        decreases row.len() - i,
    {
        assert(cells[i as int] == row@[i as int]@);
        let blank = match &row[i] {
            CellValue::Empty => true,
            _ => false,
        };
        if !blank {
            push_value_cell(strings, out, &row[i], i, looks, numbers);
        }
        proof {
            let r = value_cells(start, cells, (i + 1) as nat, looks@, *numbers);
            assert(out@ =~= before + r.bytes);
        }
        i += 1;
    }
}

/// Appends the cells of a header row.
pub fn push_header_cells(
    strings: &mut BinSharedStrings,
    out: &mut Vec<u8>,
    headers: &Vec<String>,
    looks: &CellLooks,
)
    requires
        old(strings).wf(),
        looks.styles.wf(),
    ensures
        final(strings).wf(),
        ({
            let texts = crate::biff12::texts(headers@);
            let r = header_cells(old(strings)@, texts, texts.len(), looks@);
            final(strings)@ == r.strings && final(out)@ == old(out)@ + r.bytes
        }),
{
    let ghost start = strings@;
    let ghost before = out@;
    let ghost texts = crate::biff12::texts(headers@);
    let mut i: usize = 0;
    assert(before + Seq::<u8>::empty() =~= before);
    while i < headers.len()
        invariant
            i <= headers.len(),
            strings.wf(),
            looks.styles.wf(),
            texts == crate::biff12::texts(headers@),
            ({
                let r = header_cells(start, texts, i as nat, looks@);
                strings@ == r.strings && out@ == before + r.bytes
            }),
        decreases headers.len() - i,
    {
        let style: usize = looks.styles.header_style_of(i);
        push_text_cell(strings, out, i, style, headers[i].as_str());
        proof {
            let r = header_cells(start, texts, (i + 1) as nat, looks@);
            assert(out@ =~= before + r.bytes);
        }
        i += 1;
    }
}

/// Appends a row.
pub fn push_row(
    strings: &mut BinSharedStrings,
    out: &mut Vec<u8>,
    number: usize,
    last_col: usize,
    row: &[CellValue],
    looks: &CellLooks,
    numbers: &NumberTable,
)
    requires
        old(strings).wf(),
        looks.styles.wf(),
    ensures
        final(strings).wf(),
        ({
            let cells = crate::formats::row_cells(row@);
            let r = value_cells(old(strings)@, cells, cells.len(), looks@, *numbers);
            final(strings)@ == r.strings && final(out)@ == old(out)@ + row_bytes(
                number as int,
                last_col as int,
                r.bytes,
            )
        }),
{
    let ghost before = out@;
    let ghost cells = crate::formats::row_cells(row@);
    let ghost r = value_cells(strings@, cells, cells.len(), looks@, *numbers);
    push_row_header(out, to_low32(number as u64), 0, last_col);
    push_value_cells(strings, out, row, looks, numbers);
    assert(out@ =~= before + row_bytes(number as int, last_col as int, r.bytes));
}

/// The bytes of the rows of a sheet behind its header row. All rows reach to the
/// same column.
pub fn build_rows(
    strings: &mut BinSharedStrings,
    headers: &Option<Vec<String>>,
    rows: &Vec<Vec<CellValue>>,
    last_col: usize,
    looks: &CellLooks,
    numbers: &NumberTable,
) -> (out: Vec<u8>)
    requires
        old(strings).wf(),
        looks.styles.wf(),
        rows.len() < usize::MAX,
    ensures
        final(strings).wf(),
        ({
            let r = sheet_rows(
                old(strings)@,
                crate::xlsx_update_rows::optional_texts(*headers),
                crate::formats::sheet_cells(rows@),
                last_col as int,
                looks@,
                *numbers,
            );
            final(strings)@ == r.strings && out@ == r.bytes
        }),
{
    let ghost start = strings@;
    let mut out: Vec<u8> = Vec::new();
    let mut first: usize = 0;
    match headers {
        Some(h) => {
            push_row_header(&mut out, 0, 0, last_col);
            push_header_cells(strings, &mut out, h, looks);
            first = 1;
        },
        None => {},
    }
    let ghost header = header_row(
        start,
        crate::xlsx_update_rows::optional_texts(*headers),
        last_col as int,
        looks@,
    );
    let ghost sheet = crate::formats::sheet_cells(rows@);
    proof {
        assert(out@ =~= header.bytes);
        assert(header.bytes + Seq::<u8>::empty() =~= header.bytes);
    }
    let mut i: usize = 0;
    while i < rows.len()
        invariant
            i <= rows.len() < usize::MAX,
            first <= 1,
            strings.wf(),
            looks.styles.wf(),
            sheet == crate::formats::sheet_cells(rows@),
            ({
                let r = value_rows(
                    header.strings,
                    sheet,
                    i as nat,
                    first as int,
                    last_col as int,
                    looks@,
                    *numbers,
                );
                strings@ == r.strings && out@ == header.bytes + r.bytes
            }),
        decreases rows.len() - i,
    {
        let ghost earlier = value_rows(
            header.strings,
            sheet,
            i as nat,
            first as int,
            last_col as int,
            looks@,
            *numbers,
        );
        assert(sheet[i as int] == crate::formats::row_cells(rows@[i as int]@));
        let ghost written = value_cells(
            earlier.strings,
            sheet[i as int],
            sheet[i as int].len(),
            looks@,
            *numbers,
        );
        push_row(strings, &mut out, first + i, last_col, rows[i].as_slice(), looks, numbers);
        proof {
            let bytes = row_bytes(first + i, last_col as int, written.bytes);
            assert(header.bytes + earlier.bytes + bytes =~= header.bytes + (earlier.bytes
                + bytes));
        }
        i += 1;
    }
    out
}

} // verus!
