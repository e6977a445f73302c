//! The XLSB reader.
//!
//! The reader takes the bytes of the parts of an archive. A sheet is read row by
//! row with [`XlsbReader::read`], or cell by cell with [`XlsbCellReader`].

use vstd::prelude::*;
use crate::biff12::uses_1904_date_system_bin;
use crate::biff_reader::{Biff, BiffReaderWriter};
use crate::error::{invalid, SpreadsheetError, SpreadsheetResult};
use crate::formats::{copy_cell, CellRef, CellValue, CellValueRef};
use crate::relationships::{parse_relationships, resolve_part};
use crate::text::{eq_str, text_of_bytes};
use std::collections::HashSet;

verus! {

/// What a sheet record of the workbook says, and where the sheet's part is.
pub struct XlsbSheetInfo {
    pub name: String,
    pub r_id: String,
    pub path: Option<String>,
}

/// What a sheet of the workbook stands for.
pub struct SheetEntry {
    pub name: Seq<char>,
    pub r_id: Seq<char>,
    pub path: Option<Seq<char>>,
}

pub open spec fn sheet_entries(list: Seq<XlsbSheetInfo>) -> Seq<SheetEntry> {
    Seq::new(
        list.len(),
        |i: int|
            SheetEntry {
                name: list[i].name@,
                r_id: list[i].r_id@,
                path: crate::biff_reader::text_of(list[i].path),
            },
    )
}

/// The number formats that show dates: Excel's own, and those of the workbook.
pub open spec fn shows_date(id: u16, custom: Set<u16>) -> bool {
    14 <= id <= 22 || 45 <= id <= 47 || custom.contains(id)
}

/// Whether a number format shows dates.
pub fn is_date_num_fmt(id: u16, custom: &HashSet<u16>) -> (b: bool)
    ensures
        b == shows_date(id, custom@),
{
    broadcast use vstd::std_specs::hash::group_hash_axioms;

    (14 <= id && id <= 22) || (45 <= id && id <= 47) || custom.contains(&id)
}

/// What the cells of a sheet point at: the shared strings, the number format of
/// each style, and the number formats of the workbook that show dates.
pub struct BookInfo {
    pub shared: Seq<Seq<char>>,
    pub formats: Seq<u16>,
    pub date_formats: Set<u16>,
}

impl BookInfo {
    /// The number format of a style.
    pub open spec fn format_of(self, style: int) -> u16 {
        if 0 <= style < self.formats.len() {
            self.formats[style]
        } else {
            0
        }
    }

    /// The value of the cell that the decoder has just read.
    pub open spec fn value(self, d: Biff) -> crate::formats::Plain {
        if d.cell_type == 2 {
            if d.int_value < self.shared.len() {
                crate::formats::Plain::Text(self.shared[d.int_value as int])
            } else {
                crate::formats::Plain::Empty
            }
        } else if d.cell_type == 3 {
            if shows_date(self.format_of(d.xf_index), self.date_formats) {
                crate::formats::Plain::DateTime(d.double_val)
            } else {
                crate::formats::Plain::Number(d.double_val)
            }
        } else if d.cell_type == 4 {
            crate::formats::Plain::Boolean(d.bool_value)
        } else if d.cell_type == 5 {
            match d.string_value {
                Some(text) => crate::formats::Plain::Text(text),
                None => crate::formats::Plain::Empty,
            }
        } else {
            crate::formats::Plain::Empty
        }
    }
}

/// A step that reads a record moves forward, and none moves back.
pub proof fn lemma_step_advances(d: Biff)
    requires
        d.wf(),
    ensures
        d.worksheet_step().after.wf(),
        d.worksheet_step().after.buffer == d.buffer,
        d.worksheet_step().after.pos >= d.pos,
        d.worksheet_step().result == Ok::<bool, Seq<char>>(true)
            ==> d.worksheet_step().after.pos > d.pos,
{
    if d.pos < d.buffer.len() {
        crate::biff12::lemma_vlq_at_advances(d.buffer, d.pos, 0);
        if let Ok((_, p1)) = crate::biff12::vlq_at(d.buffer, d.pos, 0) {
            if p1 < d.buffer.len() {
                crate::biff12::lemma_vlq_at_advances(d.buffer, p1, 0);
            }
        }
    }
}

/// Why a row is complete.
#[derive(Debug, Clone, Copy, PartialEq, Eq, Structural)]
pub enum RowStop {
    End,
    NextRow(i32),
}

/// What reading a row leads to: the decoder behind it, the cells, the number of
/// columns that cells were read for, and the result.
pub struct RowRead {
    pub after: Biff,
    pub row: Seq<crate::formats::Cell>,
    pub fields: int,
    pub result: Result<RowStop, Seq<char>>,
}

/// A cell without a format.
pub open spec fn bare(value: crate::formats::Plain) -> crate::formats::Cell {
    crate::formats::Cell { value, format: None }
}

/// A row that reaches at least up to the column, with empty cells put in where
/// it did not.
pub open spec fn reaching(row: Seq<crate::formats::Cell>, col: int) -> Seq<crate::formats::Cell> {
    if row.len() <= col {
        Seq::new(
            (col + 1) as nat,
            |i: int|
                if i < row.len() {
                    row[i]
                } else {
                    bare(crate::formats::Plain::Empty)
                },
        )
    } else {
        row
    }
}

/// A row with a value at a column.
pub open spec fn with_cell(
    row: Seq<crate::formats::Cell>,
    col: int,
    value: crate::formats::Plain,
) -> Seq<crate::formats::Cell> {
    reaching(row, col).update(col, bare(value))
}

/// Reads on in a row, up to the end of the sheet or the header of another row than
/// the pending one.
pub open spec fn row_from(
    info: BookInfo,
    d: Biff,
    row: Seq<crate::formats::Cell>,
    fields: int,
    pending: int,
) -> RowRead
    decreases d.buffer.len() - d.pos,
    when d.wf()
{
    proof {
        lemma_step_advances(d);
    }
    match d.worksheet_step() {
        crate::biff_reader::Step { after, result: Err(message) } => RowRead {
            after,
            row,
            fields,
            result: Err(message),
        },
        crate::biff_reader::Step { after, result: Ok(false) } => RowRead {
            after,
            row,
            fields,
            result: Ok(RowStop::End),
        },
        crate::biff_reader::Step { after, result: Ok(true) } => if after.row_index != -1
            && after.row_index != pending {
            RowRead {
                after,
                row,
                fields,
                result: if 0 <= after.row_index < 1_048_576 {
                    Ok(RowStop::NextRow(after.row_index as i32))
                } else {
                    Err("XLSB row index is outside Excel worksheet bounds"@)
                },
            }
        } else if after.read_cell {
            if 0 <= after.column_num < 16_384 {
                row_from(
                    info,
                    after,
                    with_cell(row, after.column_num, info.value(after)),
                    if after.column_num + 1 > fields {
                        after.column_num + 1
                    } else {
                        fields
                    },
                    pending,
                )
            } else {
                RowRead {
                    after,
                    row,
                    fields,
                    result: Err("XLSB column index is outside Excel worksheet bounds"@),
                }
            }
        } else {
            row_from(info, after, row, fields, pending)
        },
    }
}

/// The value of the cell that the decoder has just read.
fn cell_value<'b>(
    d: &'b BiffReaderWriter<'_>,
    shared: &'b [String],
    formats: &[u16],
    date_formats: &HashSet<u16>,
) -> (v: CellValueRef<'b>)
    ensures
        v@ == (BookInfo {
            shared: crate::biff12::texts(shared@),
            formats: formats@,
            date_formats: date_formats@,
        }).value(d@),
{
    match d.cell_type {
        2 => {
            if (d.int_value as usize) < shared.len() {
                CellValueRef::Text(shared[d.int_value as usize].as_str())
            } else {
                CellValueRef::Empty
            }
        },
        3 => {
            let format: u16 = if d.xf_index < formats.len() {
                formats[d.xf_index]
            } else {
                0
            };
            if is_date_num_fmt(format, date_formats) {
                CellValueRef::DateTime(d.double_val)
            } else {
                CellValueRef::Number(d.double_val)
            }
        },
        4 => CellValueRef::Boolean(d.bool_value),
        5 => match &d.string_value {
            Some(text) => CellValueRef::Text(text.as_str()),
            None => CellValueRef::Empty,
        },
        _ => CellValueRef::Empty,
    }
}

/// Puts a value at a column of a row.
pub fn put_cell(row: &mut Vec<CellValue>, col: usize, value: CellValue)
    requires
        col < usize::MAX,
        value@.format is None,
    ensures
        crate::formats::row_cells(final(row)@) == with_cell(
            crate::formats::row_cells(old(row)@),
            col as int,
            value@.value,
        ),
{
    let ghost before = crate::formats::row_cells(row@);
    while row.len() <= col
        invariant
            col < usize::MAX,
            before.len() <= row@.len(),
            before.len() <= col ==> row@.len() <= col + 1,
            before.len() > col ==> row@.len() == before.len(),
            forall|i: int|
                0 <= i < row@.len() ==> (#[trigger] row@[i])@ == if i < before.len() {
                    before[i]
                } else {
                    bare(crate::formats::Plain::Empty)
                },
        decreases col + 1 - row.len(),
    {
        row.push(CellValue::Empty);
    }
    row.set(col, value);
    assert(crate::formats::row_cells(row@) =~= with_cell(before, col as int, value@.value));
}

/// Reads on in a row.
fn read_row_records(
    d: &mut BiffReaderWriter<'_>,
    shared: &Vec<String>,
    formats: &Vec<u16>,
    date_formats: &HashSet<u16>,
    row: &mut Vec<CellValue>,
    fields: &mut usize,
    pending: i32,
) -> (r: SpreadsheetResult<RowStop>)
    requires
        old(d)@.wf(),
    ensures
        final(d)@.wf(),
        final(d)@.buffer == old(d)@.buffer,
        final(d)@.pos >= old(d)@.pos,
        r matches Ok(RowStop::NextRow(_)) ==> final(d)@.pos > old(d)@.pos,
        ({
            let info = BookInfo {
                shared: crate::biff12::texts(shared@),
                formats: formats@,
                date_formats: date_formats@,
            };
            let read = row_from(
                info,
                old(d)@,
                crate::formats::row_cells(old(row)@),
                *old(fields) as int,
                pending as int,
            );
            &&& final(d)@ == read.after
            &&& crate::formats::row_cells(final(row)@) == read.row
            &&& *final(fields) == read.fields
            &&& crate::error::agrees(r, read.result)
        }),
{
    let ghost info = BookInfo {
        shared: crate::biff12::texts(shared@),
        formats: formats@,
        date_formats: date_formats@,
    };
    let ghost goal = row_from(
        info,
        d@,
        crate::formats::row_cells(row@),
        *fields as int,
        pending as int,
    );
    loop
        invariant
            d@.wf(),
            d@.buffer == old(d)@.buffer,
            d@.pos >= old(d)@.pos,
            info == (BookInfo {
                shared: crate::biff12::texts(shared@),
                formats: formats@,
                date_formats: date_formats@,
            }),
            goal == row_from(
                info,
                old(d)@,
                crate::formats::row_cells(old(row)@),
                *old(fields) as int,
                pending as int,
            ),
            goal == row_from(
                info,
                d@,
                crate::formats::row_cells(row@),
                *fields as int,
                pending as int,
            ),
        decreases d@.buffer.len() - d@.pos,
    {
        proof {
            lemma_step_advances(d@);
        }
        match d.read_worksheet() {
            Err(e) => return Err(e),
            Ok(false) => return Ok(RowStop::End),
            Ok(true) => {},
        }
        if d.row_index != -1 && d.row_index != pending {
            if d.row_index < 0 || d.row_index >= 1_048_576 {
                return Err(invalid("XLSB row index is outside Excel worksheet bounds"));
            }
            return Ok(RowStop::NextRow(d.row_index));
        }
        if d.read_cell {
            if d.column_num < 0 || d.column_num >= 16_384 {
                return Err(invalid("XLSB column index is outside Excel worksheet bounds"));
            }
            let col: usize = d.column_num as usize;
            let value = cell_value(&*d, shared.as_slice(), formats.as_slice(), date_formats);
            put_cell(row, col, value.to_owned());
            if col + 1 > *fields {
                *fields = col + 1;
            }
        }
    }
}

/// What a reader stands for. The sheet being read is given by a decoder at its
/// next record.
pub struct XlsbBookState {
    pub shared: Seq<Seq<char>>,
    pub sheets: Seq<SheetEntry>,
    pub current: int,
    pub sheet: Option<Biff>,
    pub row: Seq<crate::formats::Cell>,
    pub pending: int,
    pub eof: bool,
    pub fields: int,
    pub rows: int,
    pub name: Seq<char>,
    pub results: int,
    pub formats: Seq<u16>,
    pub date_formats: Set<u16>,
    pub uses_1904: bool,
}

/// Reads the sheets of an XLSB workbook.
pub struct XlsbReader {
    shared_strings: Vec<String>,
    sheets: Vec<XlsbSheetInfo>,
    current_sheet_index: i64,
    sheet: Option<Vec<u8>>,
    position: usize,
    row_index: i32,
    current_row: Vec<CellValue>,
    pending_row_index: i32,
    eof: bool,
    pub field_count: usize,
    pub row_count: usize,
    pub actual_sheet_name: String,
    pub results_count: usize,
    pub xf_id_to_num_fmt_id: Vec<u16>,
    pub custom_date_formats: HashSet<u16>,
    /// Whether the workbook counts its dates from 1904.
    pub uses_1904_date_system: bool,
}

/// A decoder of a sheet at the same record, with nothing read yet.
pub open spec fn cursor(d: Biff) -> Biff {
    Biff {
        pos: d.pos,
        row_index: d.row_index,
        ..crate::biff_reader::decoder_at_start(d.buffer)
    }
}

impl View for XlsbReader {
    type V = XlsbBookState;

    closed spec fn view(&self) -> XlsbBookState {
        XlsbBookState {
            shared: crate::biff12::texts(self.shared_strings@),
            sheets: sheet_entries(self.sheets@),
            current: self.current_sheet_index as int,
            sheet: match self.sheet {
                Some(bytes) => Some(
                    Biff {
                        pos: self.position as int,
                        row_index: self.row_index as int,
                        ..crate::biff_reader::decoder_at_start(bytes@)
                    },
                ),
                None => None,
            },
            row: crate::formats::row_cells(self.current_row@),
            pending: self.pending_row_index as int,
            eof: self.eof,
            fields: self.field_count as int,
            rows: self.row_count as int,
            name: self.actual_sheet_name@,
            results: self.results_count as int,
            formats: self.xf_id_to_num_fmt_id@,
            date_formats: self.custom_date_formats@,
            uses_1904: self.uses_1904_date_system,
        }
    }
}

/// The state of a reader that has read nothing.
pub open spec fn fresh_state() -> XlsbBookState {
    XlsbBookState {
        shared: Seq::empty(),
        sheets: Seq::empty(),
        current: -1,
        sheet: None,
        row: Seq::empty(),
        pending: -1,
        eof: false,
        fields: 0,
        rows: 0,
        name: Seq::empty(),
        results: 0,
        formats: Seq::empty(),
        date_formats: Set::empty(),
        uses_1904: false,
    }
}

/// The text, nothing where there is none.
pub open spec fn text_or_empty(text: Option<Seq<char>>) -> Seq<char> {
    match text {
        Some(text) => text,
        None => Seq::empty(),
    }
}

/// A step over a workbook record moves forward.
pub proof fn lemma_workbook_step_advances(d: Biff)
    requires
        d.wf(),
    ensures
        d.workbook_step().after.wf(),
        d.workbook_step().after.buffer == d.buffer,
        d.workbook_step().result == Ok::<bool, Seq<char>>(true)
            ==> d.workbook_step().after.pos > d.pos,
{
    if d.pos < d.buffer.len() {
        crate::biff12::lemma_vlq_at_advances(d.buffer, d.pos, 0);
        if let Ok((_, p1)) = crate::biff12::vlq_at(d.buffer, d.pos, 0) {
            if p1 < d.buffer.len() {
                crate::biff12::lemma_vlq_at_advances(d.buffer, p1, 0);
            }
        }
    }
}

/// The sheets that the workbook part lists from the decoder's record on, added to
/// those already found, and whether it could be read to its end.
pub open spec fn sheets_from(d: Biff, found: Seq<SheetEntry>) -> (
    Seq<SheetEntry>,
    Result<(), Seq<char>>,
)
    decreases d.buffer.len() - d.pos,
    when d.wf()
{
    proof {
        lemma_workbook_step_advances(d);
    }
    match d.workbook_step() {
        crate::biff_reader::Step { after, result: Err(message) } => (found, Err(message)),
        crate::biff_reader::Step { after, result: Ok(false) } => (found, Ok(())),
        crate::biff_reader::Step { after, result: Ok(true) } => sheets_from(
            after,
            if after.is_sheet {
                found.push(
                    SheetEntry {
                        name: text_or_empty(after.workbook_name),
                        r_id: text_or_empty(after.rec_id),
                        path: None,
                    },
                )
            } else {
                found
            },
        ),
    }
}

/// The sheets with the paths that the relationships give them. A sheet without a
/// relationship keeps what it has.
pub open spec fn located(
    sheets: Seq<SheetEntry>,
    rels: Map<Seq<char>, Seq<char>>,
) -> Seq<SheetEntry> {
    Seq::new(
        sheets.len(),
        |i: int|
            if rels.contains_key(sheets[i].r_id) {
                SheetEntry {
                    path: Some(crate::relationships::part_path(rels[sheets[i].r_id])),
                    ..sheets[i]
                }
            } else {
                sheets[i]
            },
    )
}

/// A step over a shared-string record moves forward.
pub proof fn lemma_string_step_advances(d: Biff)
    requires
        d.wf(),
    ensures
        d.shared_strings_step().after.wf(),
        d.shared_strings_step().after.buffer == d.buffer,
        d.shared_strings_step().result == Ok::<bool, Seq<char>>(true)
            ==> d.shared_strings_step().after.pos > d.pos,
{
    if d.pos < d.buffer.len() {
        crate::biff12::lemma_vlq_at_advances(d.buffer, d.pos, 0);
        if let Ok((_, p1)) = crate::biff12::vlq_at(d.buffer, d.pos, 0) {
            if p1 < d.buffer.len() {
                crate::biff12::lemma_vlq_at_advances(d.buffer, p1, 0);
            }
        }
    }
}

/// The shared strings from the decoder's record on, added to those already found,
/// and whether they could be read to their end.
pub open spec fn strings_from(d: Biff, found: Seq<Seq<char>>) -> (
    Seq<Seq<char>>,
    Result<(), Seq<char>>,
)
    decreases d.buffer.len() - d.pos,
    when d.wf()
{
    proof {
        lemma_string_step_advances(d);
    }
    match d.shared_strings_step() {
        crate::biff_reader::Step { after, result: Err(message) } => (found, Err(message)),
        crate::biff_reader::Step { after, result: Ok(false) } => (found, Ok(())),
        crate::biff_reader::Step { after, result: Ok(true) } => strings_from(
            after,
            match after.shared_string_value {
                Some(text) => found.push(text),
                None => found,
            },
        ),
    }
}

/// A step over a style record moves forward.
#[verifier::rlimit(40)]
#[verifier::spinoff_prover]
pub proof fn lemma_style_step_advances(d: Biff)
    requires
        d.wf(),
    ensures
        d.styles_step().after.wf(),
        d.styles_step().after.buffer == d.buffer,
        d.styles_step().result == Ok::<bool, Seq<char>>(true) ==> d.styles_step().after.pos
            > d.pos,
{
    if d.pos < d.buffer.len() {
        crate::biff12::lemma_vlq_at_advances(d.buffer, d.pos, 0);
        if let Ok((_, p1)) = crate::biff12::vlq_at(d.buffer, d.pos, 0) {
            if p1 < d.buffer.len() {
                crate::biff12::lemma_vlq_at_advances(d.buffer, p1, 0);
            }
        }
    }
}

/// The decoder behind the style records, if they can be read to their end.
pub open spec fn styles_from(d: Biff) -> Result<Biff, Seq<char>>
    decreases d.buffer.len() - d.pos,
    when d.wf()
{
    proof {
        lemma_style_step_advances(d);
    }
    match d.styles_step() {
        crate::biff_reader::Step { after, result: Err(message) } => Err(message),
        crate::biff_reader::Step { after, result: Ok(false) } => Ok(after),
        crate::biff_reader::Step { after, result: Ok(true) } => styles_from(after),
    }
}

/// Reads all style records of `xl/styles.bin`.
pub fn read_all_styles(part: &[u8]) -> (r: SpreadsheetResult<BiffReaderWriter<'_>>)
    ensures
        match r {
            Ok(d) => styles_from(crate::biff_reader::decoder_at_start(part@)) == Ok::<
                Biff,
                Seq<char>,
            >(d@),
            Err(e) => styles_from(crate::biff_reader::decoder_at_start(part@)) matches Err(message)
                && e.says(message),
        },
{
    let mut d = BiffReaderWriter::new(part);
    let ghost start = d@;
    loop
        invariant
            d@.wf(),
            d@.buffer == part@,
            start == crate::biff_reader::decoder_at_start(part@),
            styles_from(start) == styles_from(d@),
        decreases d@.buffer.len() - d@.pos,
    {
        proof {
            lemma_style_step_advances(d@);
        }
        match d.read_styles() {
            Err(e) => return Err(e),
            Ok(false) => return Ok(d),
            Ok(true) => {},
        }
    }
}

/// The decoder at the first row of a sheet and whether there is one, or what is
/// wrong with the records before it.
pub open spec fn first_row(d: Biff) -> Result<(Biff, bool), Seq<char>>
    decreases d.buffer.len() - d.pos,
    when d.wf()
{
    proof {
        lemma_step_advances(d);
    }
    match d.worksheet_step() {
        crate::biff_reader::Step { after, result: Err(message) } => Err(message),
        crate::biff_reader::Step { after, result: Ok(false) } => Ok((after, false)),
        crate::biff_reader::Step { after, result: Ok(true) } => if after.row_index != -1 {
            Ok((after, true))
        } else {
            first_row(after)
        },
    }
}

impl XlsbBookState {
    pub open spec fn info(self) -> BookInfo {
        BookInfo {
            shared: self.shared,
            formats: self.formats,
            date_formats: self.date_formats,
        }
    }

    /// The index of the first sheet with a name, from `i` on.
    pub open spec fn sheet_named(self, name: Seq<char>, i: int) -> Option<int>
        decreases self.sheets.len() - i,
    {
        if i >= self.sheets.len() {
            None
        } else if self.sheets[i].name == name {
            Some(i)
        } else {
            self.sheet_named(name, i + 1)
        }
    }

    /// The state behind a sheet being begun, and whether it has rows. A sheet that
    /// cannot be read up to its first row is not entered.
    pub open spec fn begun(self, index: int, bytes: Seq<u8>) -> (
        XlsbBookState,
        Result<bool, Seq<char>>,
    ) {
        if index >= self.sheets.len() {
            (
                XlsbBookState {
                    current: index,
                    row: Seq::empty(),
                    fields: 0,
                    rows: 0,
                    ..self
                },
                Ok(false),
            )
        } else {
            let named = XlsbBookState {
                sheet: None,
                name: self.sheets[index].name,
                eof: false,
                pending: -1,
                ..self
            };
            match first_row(crate::biff_reader::decoder_at_start(bytes)) {
                Err(message) => (named, Err(message)),
                Ok((d, available)) => (
                    XlsbBookState {
                        sheet: Some(cursor(d)),
                        pending: d.row_index,
                        eof: !available,
                        current: index,
                        row: Seq::empty(),
                        fields: 0,
                        rows: 0,
                        ..named
                    },
                    Ok(available),
                ),
            }
        }
    }

    /// The state behind one more row, and whether there was one.
    pub open spec fn advanced(self) -> (XlsbBookState, Result<bool, Seq<char>>) {
        if self.eof {
            (self, Ok(false))
        } else {
            match self.sheet {
                None => (XlsbBookState { row: Seq::empty(), ..self }, Ok(false)),
                Some(d) => {
                    let read = row_from(
                        self.info(),
                        d,
                        Seq::empty(),
                        self.fields,
                        self.pending,
                    );
                    let moved = XlsbBookState {
                        sheet: Some(cursor(read.after)),
                        row: read.row,
                        fields: read.fields,
                        ..self
                    };
                    match read.result {
                        Err(message) => (moved, Err(message)),
                        Ok(RowStop::End) => (
                            XlsbBookState { eof: true, rows: self.rows + 1, ..moved },
                            Ok(true),
                        ),
                        Ok(RowStop::NextRow(row)) => (
                            XlsbBookState { pending: row as int, rows: self.rows + 1, ..moved },
                            Ok(true),
                        ),
                    }
                },
            }
        }
    }
}

impl XlsbReader {
    /// The position lies in the sheet, behind at least as many bytes as rows have
    /// been read.
    pub closed spec fn wf(self) -> bool {
        self.sheet matches Some(bytes) ==> self.position <= bytes@.len() && bytes@.len()
            <= usize::MAX && (self.eof || self.row_count < self.position)
    }

    pub fn new() -> (r: Self)
        ensures
            r.wf(),
            r@ == fresh_state(),
    {
        broadcast use vstd::std_specs::hash::group_hash_axioms;

        let r = XlsbReader {
            shared_strings: Vec::new(),
            sheets: Vec::new(),
            current_sheet_index: -1,
            sheet: None,
            position: 0,
            row_index: -1,
            current_row: Vec::new(),
            pending_row_index: -1,
            eof: false,
            field_count: 0,
            row_count: 0,
            actual_sheet_name: String::new(),
            results_count: 0,
            xf_id_to_num_fmt_id: Vec::new(),
            custom_date_formats: HashSet::new(),
            uses_1904_date_system: false,
        };
        assert(r@.shared =~= Seq::<Seq<char>>::empty());
        assert(r@.sheets =~= Seq::<SheetEntry>::empty());
        assert(r@.row =~= Seq::<crate::formats::Cell>::empty());
        assert(r@.name =~= Seq::<char>::empty());
        r
    }

    /// Forgets the workbook read before.
    pub fn reset(&mut self)
        ensures
            final(self).wf(),
            final(self)@ == fresh_state(),
    {
        *self = XlsbReader::new();
    }

    /// Takes the date system and the sheets from `xl/workbook.bin`.
    pub fn load_workbook(&mut self, part: &[u8]) -> (r: SpreadsheetResult<()>)
        requires
            old(self).wf(),
        ensures
            final(self).wf(),
            match crate::biff12::date_system_scan(part@, 0) {
                Err(message) => final(self)@ == old(self)@ && crate::error::fails(r, message),
                Ok(uses_1904) => {
                    let (sheets, result) = sheets_from(
                        crate::biff_reader::decoder_at_start(part@),
                        old(self)@.sheets,
                    );
                    &&& final(self)@ == (XlsbBookState { uses_1904, sheets, ..old(self)@ })
                    &&& crate::error::agrees(r, result)
                },
            },
    {
        match uses_1904_date_system_bin(part) {
            Ok(flag) => {
                self.uses_1904_date_system = flag;
            },
            Err(e) => return Err(e),
        }
        let mut d = BiffReaderWriter::new(part);
        let ghost start = d@;
        let ghost flagged = self@;
        loop
            invariant
                self.wf(),
                d@.wf(),
                d@.buffer == part@,
                start == crate::biff_reader::decoder_at_start(part@),
                crate::biff12::date_system_scan(part@, 0) == Ok::<bool, Seq<char>>(
                    self.uses_1904_date_system,
                ),
                flagged == (XlsbBookState {
                    uses_1904: self.uses_1904_date_system,
                    ..old(self)@
                }),
                self@ == (XlsbBookState { sheets: self@.sheets, ..flagged }),
                sheets_from(start, old(self)@.sheets) == sheets_from(d@, self@.sheets),
            decreases d@.buffer.len() - d@.pos,
        {
            proof {
                lemma_workbook_step_advances(d@);
            }
            match d.read_workbook() {
                Err(e) => return Err(e),
                Ok(false) => return Ok(()),
                Ok(true) => {},
            }
            if d.is_sheet {
                let name = owned_or_empty(&d.workbook_name);
                let r_id = owned_or_empty(&d.rec_id);
                let ghost before = self@.sheets;
                self.sheets.push(XlsbSheetInfo { name, r_id, path: None });
                assert(self@.sheets =~= before.push(
                    SheetEntry { name: name@, r_id: r_id@, path: None },
                ));
            }
        }
    }

    /// Takes the places of the sheets from `xl/_rels/workbook.bin.rels`.
    pub fn load_relationships(&mut self, part: &[u8])
        requires
            old(self).wf(),
        ensures
            final(self).wf(),
            final(self)@ == (XlsbBookState {
                sheets: located(
                    old(self)@.sheets,
                    crate::relationships::relationships(crate::text::bytes_text(part@)),
                ),
                ..old(self)@
            }),
    {
        let xml = text_of_bytes(part);
        let rels = parse_relationships(xml.as_str());
        let ghost before = self@;
        let mut i: usize = 0;
        while i < self.sheets.len()
            invariant
                i <= self.sheets@.len(),
                self.wf(),
                before == old(self)@,
                rels@ == crate::relationships::relationships(crate::text::bytes_text(part@)),
                self@ == (XlsbBookState { sheets: self@.sheets, ..before }),
                self@.sheets.len() == before.sheets.len(),
                forall|j: int|
                    0 <= j < self@.sheets.len() ==> #[trigger] self@.sheets[j] == if j < i {
                        located(before.sheets, rels@)[j]
                    } else {
                        before.sheets[j]
                    },
            decreases self.sheets.len() - i,
        {
            let ghost mid = self@;
            assert(mid.sheets[i as int] == before.sheets[i as int]);
            match rels.get(self.sheets[i].r_id.as_str()) {
                Some(target) => {
                    let name = self.sheets[i].name.clone();
                    let r_id = self.sheets[i].r_id.clone();
                    let path = resolve_part(target);
                    self.sheets.set(i, XlsbSheetInfo { name, r_id, path: Some(path) });
                    assert(self@.sheets =~= mid.sheets.update(
                        i as int,
                        located(before.sheets, rels@)[i as int],
                    ));
                },
                None => {},
            }
            i += 1;
        }
        assert(self@.sheets =~= located(before.sheets, rels@));
    }

    /// Takes the shared strings from `xl/sharedStrings.bin`.
    pub fn load_shared_strings(&mut self, part: &[u8]) -> (r: SpreadsheetResult<()>)
        requires
            old(self).wf(),
        ensures
            final(self).wf(),
            ({
                let (shared, result) = strings_from(
                    crate::biff_reader::decoder_at_start(part@),
                    old(self)@.shared,
                );
                &&& final(self)@ == (XlsbBookState { shared, ..old(self)@ })
                &&& crate::error::agrees(r, result)
            }),
    {
        let mut d = BiffReaderWriter::new(part);
        let ghost start = d@;
        let ghost before = self@;
        loop
            invariant
                self.wf(),
                d@.wf(),
                d@.buffer == part@,
                start == crate::biff_reader::decoder_at_start(part@),
                before == old(self)@,
                self@ == (XlsbBookState { shared: self@.shared, ..before }),
                strings_from(start, before.shared) == strings_from(d@, self@.shared),
            decreases d@.buffer.len() - d@.pos,
        {
            proof {
                lemma_string_step_advances(d@);
            }
            match d.read_shared_strings() {
                Err(e) => return Err(e),
                Ok(false) => return Ok(()),
                Ok(true) => {},
            }
            match &d.shared_string_value {
                Some(text) => {
                    let ghost known = self@.shared;
                    self.shared_strings.push(text.clone());
                    assert(self@.shared =~= known.push(text@));
                },
                None => {},
            }
        }
    }

    /// Takes the number formats of the cell styles from `xl/styles.bin`.
    pub fn load_styles(&mut self, part: &[u8]) -> (r: SpreadsheetResult<()>)
        requires
            old(self).wf(),
        ensures
            final(self).wf(),
            match styles_from(crate::biff_reader::decoder_at_start(part@)) {
                Ok(d) => r is Ok && final(self)@ == (XlsbBookState {
                    formats: d.xf_index_to_num_fmt_id,
                    date_formats: d.custom_num_fmts,
                    ..old(self)@
                }),
                Err(message) => final(self)@ == old(self)@ && crate::error::fails(r, message),
            },
    {
        let d = match read_all_styles(part) {
            Ok(d) => d,
            Err(e) => return Err(e),
        };
        self.xf_id_to_num_fmt_id = d.xf_index_to_num_fmt_id;
        self.custom_date_formats = d.custom_num_fmts;
        Ok(())
    }

    /// Ends the loading of a workbook: its sheets can now be selected.
    pub fn finish_loading(&mut self)
        requires
            old(self).wf(),
        ensures
            final(self).wf(),
            final(self)@ == (XlsbBookState {
                results: old(self)@.sheets.len() as int,
                current: -1,
                ..old(self)@
            }),
    {
        self.results_count = self.sheets.len();
        self.current_sheet_index = -1;
    }

    /// The names of the sheets.
    pub fn sheet_names(&self) -> (names: Vec<String>)
        ensures
            crate::biff12::texts(names@) == Seq::new(
                self@.sheets.len(),
                |i: int| self@.sheets[i].name,
            ),
    {
        let mut names: Vec<String> = Vec::new();
        let mut i: usize = 0;
        while i < self.sheets.len()
            invariant
                i <= self.sheets@.len(),
                names@.len() == i,
                forall|j: int| 0 <= j < i ==> (#[trigger] names@[j])@ == self.sheets@[j].name@,
            decreases self.sheets.len() - i,
        {
            names.push(self.sheets[i].name.clone());
            i += 1;
        }
        assert(crate::biff12::texts(names@) =~= Seq::new(
            self@.sheets.len(),
            |i: int| self@.sheets[i].name,
        ));
        names
    }

    /// The index of the first sheet with a name.
    pub fn find_sheet(&self, name: &str) -> (r: SpreadsheetResult<usize>)
        ensures
            match r {
                Ok(index) => self@.sheet_named(name@, 0) == Some(index as int) && index
                    < self@.sheets.len(),
                Err(e) => self@.sheet_named(name@, 0) is None && e.misses(name@),
            },
    {
        let mut i: usize = 0;
        while i < self.sheets.len()
            invariant
                i <= self.sheets@.len(),
                self@.sheet_named(name@, 0) == self@.sheet_named(name@, i as int),
            decreases self.sheets.len() - i,
        {
            if eq_str(self.sheets[i].name.as_str(), name) {
                return Ok(i);
            }
            i += 1;
        }
        Err(SpreadsheetError::SheetNotFound(name.to_owned()))
    }

    /// The path of the part of the first sheet with a name, for reading it cell by
    /// cell. A sheet without a part counts as missing.
    pub fn cell_path(&self, name: &str) -> (r: SpreadsheetResult<String>)
        ensures
            match (self@.sheet_named(name@, 0), r) {
                (Some(i), Ok(path)) => self@.sheets[i].path == Some(path@),
                (Some(i), Err(e)) => self@.sheets[i].path is None && e.misses(name@),
                (None, Err(e)) => e.misses(name@),
                (None, Ok(_)) => false,
            },
    {
        let index: usize = match self.find_sheet(name) {
            Ok(index) => index,
            Err(e) => return Err(e),
        };
        match &self.sheets[index].path {
            Some(path) => Ok(path.clone()),
            None => Err(SpreadsheetError::SheetNotFound(name.to_owned())),
        }
    }

    /// The sheet that has to be begun before a row can be read, if any.
    pub fn wanted_sheet(&self) -> (r: Option<usize>)
        ensures
            r == if self@.current == -1 && self@.sheets.len() > 0 {
                Some(0usize)
            } else {
                None
            },
    {
        if self.current_sheet_index == -1 && self.sheets.len() > 0 {
            Some(0)
        } else {
            None
        }
    }

    /// Leaves the sheet being read and gives the path of the part of the sheet to
    /// be read next, `None` where there is no such sheet.
    pub fn prepare_sheet(&mut self, index: usize) -> (r: SpreadsheetResult<Option<String>>)
        requires
            old(self).wf(),
        ensures
            final(self).wf(),
            if index >= old(self)@.sheets.len() {
                final(self)@ == old(self)@ && r matches Ok(None)
            } else {
                &&& final(self)@ == (XlsbBookState { sheet: None, ..old(self)@ })
                &&& match old(self)@.sheets[index as int].path {
                    Some(path) => r matches Ok(Some(p)) && p@ == path,
                    None => crate::error::fails(r, "sheet has no resolved path"@),
                }
            },
    {
        if index >= self.sheets.len() {
            return Ok(None);
        }
        self.sheet = None;
        match &self.sheets[index].path {
            Some(path) => Ok(Some(path.clone())),
            None => Err(invalid("sheet has no resolved path")),
        }
    }

    /// Begins a sheet, whose part holds these bytes, and tells whether it has rows.
    pub fn begin_sheet(&mut self, index: usize, bytes: Vec<u8>) -> (r: SpreadsheetResult<bool>)
        requires
            old(self).wf(),
            index <= i64::MAX,
        ensures
            final(self).wf(),
            final(self)@ == old(self)@.begun(index as int, bytes@).0,
            crate::error::agrees(r, old(self)@.begun(index as int, bytes@).1),
    {
        let ghost before = self@;
        let mut available = false;
        if index < self.sheets.len() {
            self.sheet = None;
            self.actual_sheet_name = self.sheets[index].name.clone();
            self.eof = false;
            self.pending_row_index = -1;
            let ghost named = self@;
            let mut d = BiffReaderWriter::new(bytes.as_slice());
            let ghost start = d@;
            loop
                invariant_except_break
                    d@.wf(),
                    d@.buffer == bytes@,
                    self.wf(),
                    self@ == named,
                    self.sheet is None,
                    before == old(self)@,
                    index < before.sheets.len(),
                    named == (XlsbBookState {
                        sheet: None,
                        name: before.sheets[index as int].name,
                        eof: false,
                        pending: -1,
                        ..before
                    }),
                    !available,
                    d@.row_index == -1,
                    start == crate::biff_reader::decoder_at_start(bytes@),
                    first_row(start) == first_row(d@),
                ensures
                    d@.wf(),
                    d@.buffer == bytes@,
                    self@ == named,
                    self.sheet is None,
                    available ==> d@.pos > 0,
                    first_row(start) == Ok::<(Biff, bool), Seq<char>>((d@, available)),
                decreases d@.buffer.len() - d@.pos,
            {
                proof {
                    lemma_step_advances(d@);
                    lemma_row_index(d@);
                }
                match d.read_worksheet() {
                    Err(e) => return Err(e),
                    Ok(false) => {
                        break;
                    },
                    Ok(true) => {},
                }
                if d.row_index != -1 {
                    available = true;
                    break;
                }
            }
            self.pending_row_index = d.row_index;
            self.position = d.pos;
            self.row_index = d.row_index;
            self.eof = !available;
            self.sheet = Some(bytes);
        }
        self.current_sheet_index = index as i64;
        self.current_row.clear();
        self.field_count = 0;
        self.row_count = 0;
        assert(self@.row =~= Seq::<crate::formats::Cell>::empty());
        Ok(available)
    }

    /// Reads the next row of the sheet. Gives `true` when there is one.
    pub fn read(&mut self) -> (r: SpreadsheetResult<bool>)
        requires
            old(self).wf(),
        ensures
            final(self).wf(),
            final(self)@ == old(self)@.advanced().0,
            crate::error::agrees(r, old(self)@.advanced().1),
    {
        let ghost before = self@;
        if self.eof {
            return Ok(false);
        }
        self.current_row.clear();
        assert(self@.row =~= Seq::<crate::formats::Cell>::empty());
        let bytes = match self.sheet.take() {
            Some(bytes) => bytes,
            None => {
                assert(self@ == before.advanced().0);
                return Ok(false);
            },
        };
        let mut d = BiffReaderWriter::new(bytes.as_slice());
        d.pos = self.position;
        d.row_index = self.row_index;
        assert(before.sheet == Some(d@));
        let stop = read_row_records(
            &mut d,
            &self.shared_strings,
            &self.xf_id_to_num_fmt_id,
            &self.custom_date_formats,
            &mut self.current_row,
            &mut self.field_count,
            self.pending_row_index,
        );
        self.position = d.pos;
        self.row_index = d.row_index;
        self.sheet = Some(bytes);
        match stop {
            Err(e) => Err(e),
            Ok(RowStop::End) => {
                self.eof = true;
                self.row_count = self.row_count + 1;
                Ok(true)
            },
            Ok(RowStop::NextRow(row)) => {
                self.pending_row_index = row;
                self.row_count = self.row_count + 1;
                Ok(true)
            },
        }
    }

    /// The value at a column of the row read last.
    pub fn get_value(&self, i: usize) -> (v: CellValue)
        ensures
            v@ == if i < self@.row.len() {
                self@.row[i as int]
            } else {
                bare(crate::formats::Plain::Empty)
            },
    {
        if i < self.current_row.len() {
            copy_cell(&self.current_row[i])
        } else {
            CellValue::Empty
        }
    }

    /// The row read last.
    pub fn current_row(&self) -> (row: &[CellValue])
        ensures
            crate::formats::row_cells(row@) == self@.row,
    {
        self.current_row.as_slice()
    }

    /// Leaves the sheet. The next row is read from the first one.
    pub fn close(&mut self)
        requires
            old(self).wf(),
        ensures
            final(self).wf(),
            final(self)@ == (XlsbBookState { sheet: None, current: -1, ..old(self)@ }),
    {
        self.sheet = None;
        self.current_sheet_index = -1;
    }

    /// A reader of the cells of a sheet, whose part holds these bytes.
    pub fn cell_reader<'a>(&'a self, bytes: &'a [u8]) -> (r: XlsbCellReader<'a>)
        ensures
            r.wf(),
            r@ == (CellCursor {
                decoder: crate::biff_reader::decoder_at_start(bytes@),
                info: self@.info(),
                row: 0,
                active_row: None,
            }),
    {
        XlsbCellReader {
            reader: BiffReaderWriter::new(bytes),
            shared_strings: self.shared_strings.as_slice(),
            formats: self.xf_id_to_num_fmt_id.as_slice(),
            custom_date_formats: &self.custom_date_formats,
            row: 0,
            active_row: None,
        }
    }
}

impl Default for XlsbReader {
    fn default() -> (r: Self)
        ensures
            r.wf(),
            r@ == fresh_state(),
    {
        XlsbReader::new()
    }
}

fn owned_or_empty(text: &Option<String>) -> (s: String)
    ensures
        s@ == text_or_empty(crate::biff_reader::text_of(*text)),
{
    match text {
        Some(text) => text.clone(),
        None => {
            let s = String::new();
            assert(s@ =~= Seq::<char>::empty());
            s
        },
    }
}

/// A step that reads nothing leaves the row index.
proof fn lemma_row_index(d: Biff)
    requires
        d.wf(),
    ensures
        d.worksheet_step().result == Ok::<bool, Seq<char>>(false)
            ==> d.worksheet_step().after.row_index == d.row_index,
{
}

/// What a cell reader stands for: the decoder at its next record, what its cells
/// point at, the row it is in, and the header it met last.
pub struct CellCursor {
    pub decoder: Biff,
    pub info: BookInfo,
    pub row: u32,
    pub active_row: Option<i32>,
}

/// Reads the cells of a sheet in the order in which they stand.
pub struct XlsbCellReader<'a> {
    reader: BiffReaderWriter<'a>,
    shared_strings: &'a [String],
    formats: &'a [u16],
    custom_date_formats: &'a HashSet<u16>,
    row: u32,
    active_row: Option<i32>,
}

impl<'a> View for XlsbCellReader<'a> {
    type V = CellCursor;

    closed spec fn view(&self) -> CellCursor {
        CellCursor {
            decoder: self.reader@,
            info: BookInfo {
                shared: crate::biff12::texts(self.shared_strings@),
                formats: self.formats@,
                date_formats: self.custom_date_formats@,
            },
            row: self.row,
            active_row: self.active_row,
        }
    }
}

/// A cell and where it stands.
pub struct PlacedCell {
    pub row: u32,
    pub column: u32,
    pub value: crate::formats::Plain,
}

pub open spec fn placed(cell: CellRef<'_>) -> PlacedCell {
    PlacedCell { row: cell.row, column: cell.column, value: cell.value@ }
}

impl CellCursor {
    /// The cursor behind the next cell, and the cell.
    pub open spec fn next(self) -> (CellCursor, Result<Option<PlacedCell>, Seq<char>>)
        decreases self.decoder.buffer.len() - self.decoder.pos,
        when self.decoder.wf()
    {
        proof {
            lemma_step_advances(self.decoder);
        }
        let step = self.decoder.worksheet_step();
        let moved = CellCursor { decoder: step.after, ..self };
        let after = step.after;
        match step.result {
            Err(message) => (moved, Err(message)),
            Ok(false) => (moved, Ok(None)),
            Ok(true) => if after.row_index >= 0 && self.active_row != Some(after.row_index as i32) {
                if after.row_index >= 1_048_576 {
                    (moved, Err("XLSB row index is outside Excel worksheet bounds"@))
                } else {
                    (CellCursor {
                        active_row: Some(after.row_index as i32),
                        row: after.row_index as u32,
                        ..moved
                    }).next()
                }
            } else if !after.read_cell {
                moved.next()
            } else if after.column_num < 0 || after.column_num >= 16_384 {
                (moved, Err("XLSB column index is outside Excel worksheet bounds"@))
            } else {
                (
                    moved,
                    Ok(
                        Some(
                            PlacedCell {
                                row: self.row,
                                column: after.column_num as u32,
                                value: self.info.value(after),
                            },
                        ),
                    ),
                )
            },
        }
    }
}

impl<'a> XlsbCellReader<'a> {
    pub closed spec fn wf(self) -> bool {
        self.reader@.wf()
    }

    /// The next cell that stands in the sheet.
    pub fn next_cell<'b>(&'b mut self) -> (r: SpreadsheetResult<Option<CellRef<'b>>>)
        requires
            old(self).wf(),
        ensures
            final(self).wf(),
            final(self)@ == old(self)@.next().0,
            match (r, old(self)@.next().1) {
                (Ok(Some(cell)), Ok(Some(expected))) => placed(cell) == expected,
                (Ok(None), Ok(None)) => true,
                (Err(e), Err(message)) => e.says(message),
                _ => false,
            },
    {
        loop
            invariant_except_break
                self.wf(),
                old(self)@.next() == self@.next(),
            ensures
                self.wf(),
                old(self)@.next().0 == self@,
                0 <= self.reader@.column_num < 16_384,
                old(self)@.next().1 == Ok::<Option<PlacedCell>, Seq<char>>(
                    Some(
                        PlacedCell {
                            row: self.row,
                            column: self.reader@.column_num as u32,
                            value: self@.info.value(self.reader@),
                        },
                    ),
                ),
            decreases self.reader@.buffer.len() - self.reader@.pos,
        {
            proof {
                lemma_step_advances(self.reader@);
            }
            match self.reader.read_worksheet() {
                Err(e) => return Err(e),
                Ok(false) => return Ok(None),
                Ok(true) => {},
            }
            let row_index: i32 = self.reader.row_index;
            let is_new = match self.active_row {
                Some(active) => active != row_index,
                None => true,
            };
            if row_index >= 0 && is_new {
                if row_index >= 1_048_576 {
                    return Err(invalid("XLSB row index is outside Excel worksheet bounds"));
                }
                self.active_row = Some(row_index);
                self.row = row_index as u32;
            } else if self.reader.read_cell {
                if self.reader.column_num < 0 || self.reader.column_num >= 16_384 {
                    return Err(invalid("XLSB column index is outside Excel worksheet bounds"));
                }
                break;
            }
        }
        let value = cell_value(
            &self.reader,
            self.shared_strings,
            self.formats,
            self.custom_date_formats,
        );
        Ok(Some(CellRef { row: self.row, column: self.reader.column_num as u32, value }))
    }
}

} // verus!
