//! Choosing the reader for a workbook, and one surface over both readers.

use vstd::prelude::*;
use crate::error::{SpreadsheetError, SpreadsheetResult};
use crate::formats::CellValue;
use crate::text::{chars_of, string_of, to_ascii_lower};
use crate::xlsb_reader::{XlsbCellReader, XlsbReader};
use crate::xlsx_cell_reader::{CellProgress, XlsxCellReader};
use crate::xlsx_reader::{RowProgress, XlsxReader};

verus! {

#[derive(Debug, Clone, Copy, PartialEq, Eq, Structural)]
pub enum ReaderKind {
    Xlsx,
    Xlsb,
}

/// The text with its ASCII capitals as small letters.
pub open spec fn small_letters(s: Seq<char>) -> Seq<char> {
    Seq::new(s.len(), |i: int| crate::text::ascii_lower(s[i]))
}

fn in_small_letters(s: &str) -> (r: String)
    ensures
        r@ == small_letters(s@),
{
    let chars = chars_of(s);
    let mut lower: Vec<char> = Vec::new();
    let mut i: usize = 0;
    while i < chars.len()
        invariant
            i <= chars.len(),
            chars@ == s@,
            lower@ == small_letters(s@).take(i as int),
        decreases chars.len() - i,
    {
        lower.push(to_ascii_lower(chars[i]));
        assert(lower@ =~= small_letters(s@).take(i as int + 1));
        i += 1;
    }
    assert(small_letters(s@).take(i as int) =~= small_letters(s@));
    string_of(&lower)
}

/// The extension in small letters, nothing where there is none.
pub open spec fn plain_extension(extension: Option<&str>) -> Seq<char> {
    match extension {
        Some(e) => small_letters(e@),
        None => Seq::empty(),
    }
}

/// The kind of reader for a file with the given extension.
pub fn detect_kind(extension: Option<&str>) -> (r: SpreadsheetResult<ReaderKind>)
    ensures
        match r {
            Ok(ReaderKind::Xlsx) => plain_extension(extension) == "xlsx"@,
            Ok(ReaderKind::Xlsb) => plain_extension(extension) == "xlsb"@,
            Err(e) => {
                &&& plain_extension(extension) != "xlsx"@
                &&& plain_extension(extension) != "xlsb"@
                &&& e matches SpreadsheetError::UnsupportedExtension(shown)
                &&& shown@ == "."@ + plain_extension(extension)
            },
        },
{
    let lower = match extension {
        Some(e) => in_small_letters(e),
        None => String::new(),
    };
    assert(lower@ =~= plain_extension(extension));
    if crate::text::eq_str(lower.as_str(), "xlsx") {
        proof {
            reveal_strlit("xlsx");
            reveal_strlit("xlsb");
            assert("xlsx"@[3] != "xlsb"@[3]);
        }
        return Ok(ReaderKind::Xlsx);
    }
    if crate::text::eq_str(lower.as_str(), "xlsb") {
        return Ok(ReaderKind::Xlsb);
    }
    let mut shown = ".".to_owned();
    shown.append(lower.as_str());
    Err(SpreadsheetError::UnsupportedExtension(shown))
}

/// A reader of either kind of workbook.
pub enum SpreadsheetReader {
    Xlsx(XlsxReader),
    Xlsb(XlsbReader),
}

/// A streaming cell reader of either kind of workbook.
pub enum SpreadsheetCellReader<'a> {
    Xlsx(XlsxCellReader<'a>),
    Xlsb(XlsbCellReader<'a>),
}

impl<'a> SpreadsheetCellReader<'a> {
    pub open spec fn wf(self) -> bool {
        match self {
            SpreadsheetCellReader::Xlsx(_) => true,
            SpreadsheetCellReader::Xlsb(r) => r.wf(),
        }
    }

    /// The next cell that stands in the sheet. A reader of XLSX workbooks can stop
    /// at a number.
    pub fn next_cell<'b>(&'b mut self) -> (r: SpreadsheetResult<CellProgress<'b>>)
        requires
            old(self).wf(),
        ensures
            final(self).wf(),
            match (*old(self), *final(self)) {
                (SpreadsheetCellReader::Xlsx(before), SpreadsheetCellReader::Xlsx(after)) => {
                    &&& after@ == before@.next().0
                    &&& crate::xlsx_cell_reader::gives(r, before@.next().1)
                },
                (SpreadsheetCellReader::Xlsb(before), SpreadsheetCellReader::Xlsb(after)) => {
                    &&& after@ == before@.next().0
                    &&& match (r, before@.next().1) {
                        (Ok(CellProgress::Cell(cell)), Ok(Some(expected))) => {
                            crate::xlsb_reader::placed(cell) == expected
                        },
                        (Ok(CellProgress::End), Ok(None)) => true,
                        (Err(e), Err(message)) => e.says(message),
                        _ => false,
                    }
                },
                _ => false,
            },
    {
        match self {
            SpreadsheetCellReader::Xlsx(r) => r.next_cell(),
            SpreadsheetCellReader::Xlsb(r) => match r.next_cell() {
                Ok(Some(cell)) => Ok(CellProgress::Cell(cell)),
                Ok(None) => Ok(CellProgress::End),
                Err(e) => Err(e),
            },
        }
    }
}

/// A row read by a reader of XLSB workbooks, seen as progress.
pub open spec fn row_progress(found: bool) -> RowProgress {
    if found {
        RowProgress::Row
    } else {
        RowProgress::End
    }
}

impl SpreadsheetReader {
    pub open spec fn wf(self) -> bool {
        match self {
            SpreadsheetReader::Xlsx(_) => true,
            SpreadsheetReader::Xlsb(r) => r.wf(),
        }
    }

    /// Creates a reader for a file with the given extension.
    pub fn create(extension: Option<&str>) -> (r: SpreadsheetResult<Self>)
        ensures
            match r {
                Ok(SpreadsheetReader::Xlsx(reader)) => plain_extension(extension) == "xlsx"@
                    && reader@ == crate::xlsx_reader::fresh_state(),
                Ok(SpreadsheetReader::Xlsb(reader)) => plain_extension(extension) == "xlsb"@
                    && reader.wf() && reader@ == crate::xlsb_reader::fresh_state(),
                Err(e) => {
                    &&& plain_extension(extension) != "xlsx"@
                    &&& plain_extension(extension) != "xlsb"@
                    &&& e matches SpreadsheetError::UnsupportedExtension(shown)
                    &&& shown@ == "."@ + plain_extension(extension)
                },
            },
    {
        match detect_kind(extension) {
            Ok(ReaderKind::Xlsx) => Ok(SpreadsheetReader::Xlsx(XlsxReader::new())),
            Ok(ReaderKind::Xlsb) => Ok(SpreadsheetReader::Xlsb(XlsbReader::new())),
            Err(e) => Err(e),
        }
    }

    /// The names of the sheets in workbook order.
    pub fn sheet_names(&self) -> (names: Vec<String>)
        ensures
            match *self {
                SpreadsheetReader::Xlsx(r) => crate::biff12::texts(names@) == Seq::new(
                    r@.sheets.len(),
                    |i: int| r@.sheets[i].name,
                ),
                SpreadsheetReader::Xlsb(r) => crate::biff12::texts(names@) == Seq::new(
                    r@.sheets.len(),
                    |i: int| r@.sheets[i].name,
                ),
            },
    {
        match self {
            SpreadsheetReader::Xlsx(r) => r.sheet_names(),
            SpreadsheetReader::Xlsb(r) => r.sheet_names(),
        }
    }

    /// Reads the next row. A reader of XLSX workbooks can stop at a number.
    pub fn read(&mut self) -> (r: SpreadsheetResult<RowProgress>)
        requires
            old(self).wf(),
            *old(self) matches SpreadsheetReader::Xlsx(x) ==> x@.rows < usize::MAX,
        ensures
            final(self).wf(),
            match (*old(self), *final(self)) {
                (SpreadsheetReader::Xlsx(before), SpreadsheetReader::Xlsx(after)) => {
                    &&& after@ == before@.advanced().0
                    &&& crate::xlsx_reader::comes_to(r, before@.advanced().1)
                },
                (SpreadsheetReader::Xlsb(before), SpreadsheetReader::Xlsb(after)) => {
                    &&& after@ == before@.advanced().0
                    &&& match before@.advanced().1 {
                        Ok(found) => r == Ok::<RowProgress, SpreadsheetError>(row_progress(found)),
                        Err(message) => crate::error::fails(r, message),
                    }
                },
                _ => false,
            },
    {
        match self {
            SpreadsheetReader::Xlsx(r) => r.read(),
            SpreadsheetReader::Xlsb(r) => match r.read() {
                Ok(true) => Ok(RowProgress::Row),
                Ok(false) => Ok(RowProgress::End),
                Err(e) => Err(e),
            },
        }
    }

    /// The value at a column of the row read last.
    pub fn get_value(&self, i: usize) -> (v: CellValue)
        ensures
            ({
                let row = match *self {
                    SpreadsheetReader::Xlsx(r) => r@.scan.row,
                    SpreadsheetReader::Xlsb(r) => r@.row,
                };
                v@ == if i < row.len() {
                    row[i as int]
                } else {
                    crate::xlsb_reader::bare(crate::formats::Plain::Empty)
                }
            }),
    {
        match self {
            SpreadsheetReader::Xlsx(r) => r.get_value(i),
            SpreadsheetReader::Xlsb(r) => r.get_value(i),
        }
    }

    /// The row read last.
    pub fn current_row(&self) -> (row: &[CellValue])
        ensures
            crate::formats::row_cells(row@) == (match *self {
                SpreadsheetReader::Xlsx(r) => r@.scan.row,
                SpreadsheetReader::Xlsb(r) => r@.row,
            }),
    {
        match self {
            SpreadsheetReader::Xlsx(r) => r.current_row(),
            SpreadsheetReader::Xlsb(r) => r.current_row(),
        }
    }
}

/// Creates a reader for a file with the given extension.
pub fn create_reader(extension: Option<&str>) -> (r: SpreadsheetResult<SpreadsheetReader>)
    ensures
        match r {
            Ok(SpreadsheetReader::Xlsx(reader)) => plain_extension(extension) == "xlsx"@ && reader@
                == crate::xlsx_reader::fresh_state(),
            Ok(SpreadsheetReader::Xlsb(reader)) => plain_extension(extension) == "xlsb"@
                && reader.wf() && reader@ == crate::xlsb_reader::fresh_state(),
            Err(e) => {
                &&& plain_extension(extension) != "xlsx"@
                &&& plain_extension(extension) != "xlsb"@
                &&& e matches SpreadsheetError::UnsupportedExtension(shown)
                &&& shown@ == "."@ + plain_extension(extension)
            },
        },
{
    SpreadsheetReader::create(extension)
}

} // verus!
