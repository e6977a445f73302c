//! The XLSX writer.
//!
//! The writer collects the parts of the archive; [`XlsxWriter::finalize`] hands
//! them out. A part's text is given by the spec functions of the modules that
//! render it.

use vstd::prelude::*;
use crate::big_buffer::{BigBuffer, EntryData};
use crate::datetime::EXCEL_MAX_COLUMNS;
use crate::error::{invalid, SpreadsheetError, SpreadsheetResult};
use crate::formats::CellValue;
use crate::number::NumberTable;
use crate::sheet_tables::SheetTables;
use crate::streaming_state::StreamingSheetState;
use crate::text::{chars_of, push_decimal};
use crate::writer_helpers::{
    apply_header_widths, free_sheet_name, init_col_widths, update_col_widths_from_rows,
};
use crate::xlsx_cells::{
    push_auto_filter, push_dimension, push_header_row, push_row, push_rows, push_sheet_head,
    worksheet_start,
};
use crate::xlsx_parts::{
    render_content_types, render_shared_strings, render_workbook, render_workbook_rels, GLOBAL_RELS,
};
use crate::xlsx_style_part::render_styles;
use crate::xml_utils::column_index_to_letter;

verus! {

/// Options for [`XlsxWriter::start_sheet`].
#[derive(Debug, Clone)]
pub struct SheetOptions {
    pub hidden: bool,
    pub do_autofilter: bool,
    pub sample_rows: Option<Vec<Vec<CellValue>>>,
}

impl SheetOptions {
    pub fn new() -> (r: Self)
        ensures
            !r.hidden,
            r.do_autofilter,
            r.sample_rows is None,
    {
        SheetOptions { hidden: false, do_autofilter: true, sample_rows: None }
    }
}

impl Default for SheetOptions {
    fn default() -> (r: Self)
        ensures
            !r.hidden,
            !r.do_autofilter,
            r.sample_rows is None,
    {
        SheetOptions { hidden: false, do_autofilter: false, sample_rows: None }
    }
}

/// A sheet of the workbook being written. The sheets are numbered from one in the
/// order in which they were added.
pub struct SheetInfo {
    pub name: String,
    pub hidden: bool,
    pub filter_header_range: Option<String>,
}

/// A part of the archive.
pub struct Entry {
    pub name: String,
    pub data: EntryData,
}

/// What a sheet of the workbook stands for.
pub struct Sheet {
    pub name: Seq<char>,
    pub hidden: bool,
    pub filter: Option<Seq<char>>,
}

/// What a part of the archive stands for.
pub struct Part {
    pub name: Seq<char>,
    pub bytes: Seq<u8>,
}

/// The sheet that is written row by row: its columns, whether it gets a filter,
/// the rows written, the text from its view to its header row, and the bytes of
/// the rows behind that.
pub struct OpenSheet {
    pub columns: int,
    pub filter: bool,
    pub rows: int,
    pub head: Seq<char>,
    pub body: Seq<u8>,
}

/// What a writer stands for.
pub struct XlsxBook {
    pub entries: Seq<Part>,
    pub sheets: Seq<Sheet>,
    pub tables: crate::sheet_tables::Tables,
    pub autofilter_is_on: bool,
    pub compression_level: i64,
    pub open: Option<OpenSheet>,
}

/// Writes a workbook as the parts of an XLSX archive.
pub struct XlsxWriter {
    entries: Vec<Entry>,
    sheet_list: Vec<SheetInfo>,
    tables: SheetTables,
    autofilter_is_on: bool,
    compression_level: i64,
    stream: StreamingSheetState,
    /// The text from the view of the open sheet to its header row. It is kept back
    /// until the sheet is closed and the number of rows is known.
    pending_sheet_head: String,
}

pub open spec fn sheet_views(sheets: Seq<SheetInfo>) -> Seq<Sheet> {
    Seq::new(
        sheets.len(),
        |i: int|
            Sheet {
                name: sheets[i].name@,
                hidden: sheets[i].hidden,
                filter: crate::biff_reader::text_of(sheets[i].filter_header_range),
            },
    )
}

pub open spec fn parts(entries: Seq<Entry>) -> Seq<Part> {
    Seq::new(entries.len(), |i: int| Part { name: entries[i].name@, bytes: entries[i].data@ })
}

/// The names of sheets.
pub open spec fn sheet_names(sheets: Seq<Sheet>) -> Seq<Seq<char>> {
    Seq::new(sheets.len(), |i: int| sheets[i].name)
}

impl View for XlsxWriter {
    type V = XlsxBook;

    closed spec fn view(&self) -> XlsxBook {
        XlsxBook {
            entries: parts(self.entries@),
            sheets: sheet_views(self.sheet_list@),
            tables: self.tables@,
            autofilter_is_on: self.autofilter_is_on,
            compression_level: self.compression_level,
            open: if self.stream.is_streaming {
                Some(
                    OpenSheet {
                        columns: self.stream.end_col as int,
                        filter: self.stream.do_autofilter,
                        rows: self.stream.row_num as int,
                        head: self.pending_sheet_head@,
                        body: self.stream.buffer->0@.bytes(),
                    },
                )
            } else {
                None
            },
        }
    }
}

/// The path of a sheet's part, by the number of the sheet.
pub open spec fn sheet_path(n: int) -> Seq<char> {
    "xl/worksheets/sheet"@ + crate::text::decimal(n) + ".xml"@
}

/// The message for too many columns.
pub open spec fn columns_message(column_count: int) -> Seq<char> {
    "worksheet has "@ + crate::text::decimal(column_count)
        + " columns; Excel supports at most 16384"@
}

/// The error for too many columns.
pub fn too_many_columns(column_count: usize) -> (e: SpreadsheetError)
    ensures
        e.says(columns_message(column_count as int)),
{
    let mut message = "worksheet has ".to_owned();
    push_decimal(&mut message, column_count as i128);
    message.append(" columns; Excel supports at most 16384");
    SpreadsheetError::InvalidFormat(message)
}

/// The characters that make Excel want quotes around a sheet name in a formula.
pub open spec fn wants_quote(c: char) -> bool {
    c == ' ' || c == '\t' || c == '-' || c == '+' || c == '=' || c == '(' || c == ')' || c == '!'
        || c == '@' || c == '#' || c == '$' || c == '%' || c == '^' || c == '&' || c == '\''
}

/// A text with its quotes doubled.
pub open spec fn quotes_doubled(s: Seq<char>) -> Seq<char>
    decreases s.len(),
{
    if s.len() == 0 {
        Seq::empty()
    } else if s.last() == '\'' {
        quotes_doubled(s.drop_last()) + seq!['\'', '\'']
    } else {
        quotes_doubled(s.drop_last()).push(s.last())
    }
}

/// A sheet name as it stands in a formula: in quotes where a character wants them
/// or it starts with a digit.
pub open spec fn formula_name(name: Seq<char>) -> Seq<char> {
    if (exists|i: int| 0 <= i < name.len() && wants_quote(#[trigger] name[i])) || (name.len() > 0
        && crate::text::is_digit(name[0])) {
        seq!['\''] + quotes_doubled(name) + seq!['\'']
    } else {
        name
    }
}

/// A sheet name as it stands in a formula.
fn format_sheet_name_for_formula(name: &str) -> (r: String)
    ensures
        r@ == formula_name(name@),
{
    let chars = chars_of(name);
    let mut quote = chars.len() > 0 && '0' <= chars[0] && chars[0] <= '9';
    let mut doubled = String::new();
    let mut i: usize = 0;
    while i < chars.len()
        invariant
            i <= chars.len(),
            chars@ == name@,
            doubled@ == quotes_doubled(name@.take(i as int)),
            quote == ((exists|j: int| 0 <= j < i && wants_quote(#[trigger] name@[j])) || (
            name@.len() > 0 && crate::text::is_digit(name@[0]))),
        decreases chars.len() - i,
    {
        let c = chars[i];
        let ghost before = doubled@;
        assert(name@.take(i as int + 1).drop_last() =~= name@.take(i as int));
        if c == ' ' || c == '\t' || c == '-' || c == '+' || c == '=' || c == '(' || c == ')' || c
            == '!' || c == '@' || c == '#' || c == '$' || c == '%' || c == '^' || c == '&' || c
            == '\'' {
            quote = true;
            assert(wants_quote(name@[i as int]));
        }
        doubled.push(c);
        if c == '\'' {
            doubled.push(c);
            assert(doubled@ =~= before + seq!['\'', '\'']);
        }
        i += 1;
    }
    assert(name@.take(name@.len() as int) =~= name@);
    if quote {
        let mut r = String::new();
        r.push('\'');
        r.append(doubled.as_str());
        r.push('\'');
        assert(r@ =~= seq!['\''] + quotes_doubled(name@) + seq!['\'']);
        r
    } else {
        name.to_owned()
    }
}

/// The range that the filter of a sheet covers, as a formula.
pub open spec fn filter_range(name: Seq<char>, total_rows: int, column_count: int) -> Seq<char> {
    formula_name(name) + "!$A$1:$"@ + crate::xml_utils::column_letters(column_count as nat) + "$"@
        + crate::text::decimal(total_rows)
}

fn filter_range_text(name: &str, total_rows: u64, column_count: usize) -> (r: String)
    requires
        column_count > 0,
    ensures
        r@ == filter_range(name@, total_rows as int, column_count as int),
{
    let mut r = format_sheet_name_for_formula(name);
    r.append("!$A$1:$");
    let letters = column_index_to_letter(column_count - 1);
    r.append(letters.as_str());
    r.append("$");
    push_decimal(&mut r, total_rows as i128);
    r
}

/// The widths of columns before any of them is known.
pub open spec fn unknown_widths(column_count: int) -> Seq<int> {
    Seq::new(column_count as nat, |i: int| -100)
}

/// The widths that headers and sample rows ask for.
pub open spec fn fitted_widths(
    column_count: int,
    headers: Option<Seq<Seq<char>>>,
    sample: Option<Seq<Seq<crate::formats::Cell>>>,
    numbers: NumberTable,
) -> Seq<int> {
    let w0 = unknown_widths(column_count);
    let w1 = match headers {
        Some(h) => crate::writer_helpers::header_widths(w0, h, column_count),
        None => w0,
    };
    match sample {
        Some(rows) => crate::writer_helpers::sampled_widths(w1, rows, 100, numbers),
        None => w1,
    }
}

/// The rows of an optional sample.
pub open spec fn sample_cells(sample: Option<Vec<Vec<CellValue>>>) -> Option<
    Seq<Seq<crate::formats::Cell>>,
> {
    match sample {
        Some(rows) => Some(crate::formats::sheet_cells(rows@)),
        None => None,
    }
}

impl XlsxBook {
    /// The workbook with one more sheet.
    pub open spec fn with_sheet(self, name: Seq<char>, hidden: bool) -> XlsxBook {
        XlsxBook {
            sheets: self.sheets.push(
                Sheet {
                    name: crate::writer_helpers::new_sheet_name(name, sheet_names(self.sheets)),
                    hidden,
                    filter: None,
                },
            ),
            ..self
        }
    }

    /// The workbook with a sheet begun that is written row by row.
    pub open spec fn with_started_sheet(
        self,
        name: Seq<char>,
        column_count: int,
        headers: Option<Seq<Seq<char>>>,
        options: SheetOptions,
        numbers: NumberTable,
    ) -> XlsxBook {
        let added = self.with_sheet(name, options.hidden);
        let widths = fitted_widths(
            column_count,
            headers,
            sample_cells(options.sample_rows),
            numbers,
        );
        let header = crate::xlsx_cells::header_row(self.tables, headers);
        XlsxBook {
            tables: header.tables,
            open: Some(
                OpenSheet {
                    columns: column_count,
                    filter: options.do_autofilter && headers is Some,
                    rows: if headers is Some {
                        1
                    } else {
                        0
                    },
                    head: crate::xlsx_cells::sheet_head(
                        widths,
                        headers is Some,
                        added.sheets.len() == 1,
                    ) + header.xml,
                    body: Seq::empty(),
                },
            ),
            ..added
        }
    }

    /// The workbook with one more row in the open sheet.
    pub open spec fn with_row(
        self,
        line: Seq<crate::formats::Cell>,
        numbers: NumberTable,
    ) -> XlsxBook {
        let open = self.open->0;
        let r = crate::xlsx_cells::row(self.tables, line, numbers, true);
        XlsxBook {
            tables: r.tables,
            open: Some(
                OpenSheet {
                    rows: open.rows + 1,
                    body: open.body + vstd::utf8::encode_utf8(r.xml),
                    ..open
                },
            ),
            ..self
        }
    }

    /// The workbook with the last sheet filtered, if it is to be.
    pub open spec fn with_filter(self, filtered: bool, total_rows: int, columns: int) -> XlsxBook {
        let last = self.sheets.len() - 1;
        if filtered {
            XlsxBook {
                autofilter_is_on: true,
                sheets: self.sheets.update(
                    last,
                    Sheet {
                        filter: Some(filter_range(self.sheets[last].name, total_rows, columns)),
                        ..self.sheets[last]
                    },
                ),
                ..self
            }
        } else {
            self
        }
    }

    /// The workbook with the bytes of its last sheet added to the archive.
    pub open spec fn with_part(self, bytes: Seq<u8>) -> XlsxBook {
        XlsxBook {
            entries: self.entries.push(
                Part { name: sheet_path(self.sheets.len() as int), bytes },
            ),
            ..self
        }
    }

    /// The workbook with the open sheet closed.
    pub open spec fn with_ended_sheet(self) -> XlsxBook {
        let open = self.open->0;
        let filtered = open.filter && open.columns > 0 && open.rows > 0;
        let closed = XlsxBook { open: None, ..self };
        closed.with_filter(filtered, open.rows, open.columns).with_part(
            vstd::utf8::encode_utf8(sheet_start(open.rows, open.columns) + open.head) + (open.body
                + vstd::utf8::encode_utf8(sheet_end(filtered, open.rows, open.columns))),
        )
    }

    /// The workbook with a whole sheet written.
    pub open spec fn with_written_sheet(
        self,
        columns: int,
        sheet: Seq<Seq<crate::formats::Cell>>,
        headers: Option<Seq<Seq<char>>>,
        do_autofilter: bool,
        numbers: NumberTable,
    ) -> XlsxBook {
        let total_rows = sheet.len() + if headers is Some {
            1int
        } else {
            0
        };
        let widths = fitted_widths(columns, headers, Some(sheet), numbers);
        let filtered = do_autofilter && headers is Some && columns > 0 && total_rows > 0;
        let header = crate::xlsx_cells::header_row(self.tables, headers);
        let body = crate::xlsx_cells::rows(header.tables, sheet, sheet.len(), numbers, false);
        let written = XlsxBook { tables: body.tables, ..self };
        written.with_filter(filtered, total_rows, columns).with_part(
            vstd::utf8::encode_utf8(
                sheet_start(total_rows, columns) + crate::xlsx_cells::sheet_head(
                    widths,
                    headers is Some,
                    self.sheets.len() == 1,
                ) + header.xml + body.xml + sheet_end(filtered, total_rows, columns),
            ),
        )
    }
}

/// Everything before the view of a sheet.
pub open spec fn sheet_start(total_rows: int, columns: int) -> Seq<char> {
    crate::xlsx_cells::worksheet_open() + crate::xlsx_cells::dimension(total_rows, columns)
}

/// Everything behind the rows of a sheet.
pub open spec fn sheet_end(filtered: bool, total_rows: int, columns: int) -> Seq<char> {
    "</sheetData>"@ + (if filtered {
        crate::xlsx_cells::auto_filter(total_rows, columns)
    } else {
        Seq::empty()
    }) + "</worksheet>"@
}

fn push_sheet_end(out: &mut String, filtered: bool, total_rows: u64, columns: usize)
    requires
        filtered ==> columns > 0,
    ensures
        final(out)@ == old(out)@ + sheet_end(filtered, total_rows as int, columns as int),
{
    let ghost before = out@;
    out.append("</sheetData>");
    if filtered {
        push_auto_filter(out, total_rows, columns);
    }
    out.append("</worksheet>");
    assert(out@ =~= before + sheet_end(filtered, total_rows as int, columns as int));
}

/// The number of columns of a sheet written at once: that of its first row, else
/// that of its headers.
pub open spec fn sheet_columns(
    sheet: Seq<Seq<crate::formats::Cell>>,
    headers: Option<Seq<Seq<char>>>,
) -> int {
    if sheet.len() > 0 {
        sheet[0].len() as int
    } else {
        match headers {
            Some(h) => h.len() as int,
            None => 0,
        }
    }
}

/// The first row from `i` on that has another number of cells.
pub open spec fn odd_row(
    sheet: Seq<Seq<crate::formats::Cell>>,
    columns: int,
    i: int,
) -> Option<int>
    decreases sheet.len() - i,
{
    if i >= sheet.len() {
        None
    } else if sheet[i].len() != columns {
        Some(i)
    } else {
        odd_row(sheet, columns, i + 1)
    }
}

/// The number of columns of a sheet written at once.
pub fn count_columns(rows: &Vec<Vec<CellValue>>, headers: Option<&[String]>) -> (n: usize)
    ensures
        n == sheet_columns(
            crate::formats::sheet_cells(rows@),
            crate::xlsx_cells::header_texts(headers),
        ),
{
    if rows.len() > 0 {
        rows[0].len()
    } else {
        match headers {
            Some(h) => h.len(),
            None => 0,
        }
    }
}

/// The number of cells of the first row that has not `columns` of them.
pub fn find_odd_row(rows: &Vec<Vec<CellValue>>, columns: usize) -> (r: Option<usize>)
    ensures
        match r {
            Some(got) => odd_row(crate::formats::sheet_cells(rows@), columns as int, 0) matches Some(
                i,
            ) && 0 <= i < rows@.len() && rows@[i]@.len() == got,
            None => {
                &&& odd_row(crate::formats::sheet_cells(rows@), columns as int, 0) is None
                &&& forall|i: int| 0 <= i < rows@.len() ==> (#[trigger] rows@[i])@.len() == columns
            },
        },
{
    let mut i: usize = 0;
    while i < rows.len()
        invariant
            i <= rows.len(),
            odd_row(crate::formats::sheet_cells(rows@), columns as int, 0) == odd_row(
                crate::formats::sheet_cells(rows@),
                columns as int,
                i as int,
            ),
            forall|j: int| 0 <= j < i ==> (#[trigger] rows@[j])@.len() == columns,
        decreases rows.len() - i,
    {
        assert(crate::formats::sheet_cells(rows@)[i as int] == crate::formats::row_cells(
            rows@[i as int]@,
        ));
        if rows[i].len() != columns {
            return Some(rows[i].len());
        }
        i += 1;
    }
    None
}

/// What stops a sheet from being started.
pub open spec fn start_refused(
    columns: usize,
    headers: Option<Seq<Seq<char>>>,
    is_open: bool,
    e: SpreadsheetError,
) -> bool {
    if columns > 16_384 {
        e.says(columns_message(columns as int))
    } else if headers matches Some(h) && h.len() != columns {
        e == SpreadsheetError::RowLengthMismatch {
            expected: columns,
            got: (headers->0).len() as usize,
        }
    } else {
        is_open && e is AlreadyStreaming
    }
}

/// What stops a sheet from being written at once.
pub open spec fn write_refused(
    sheet: Seq<Seq<crate::formats::Cell>>,
    headers: Option<Seq<Seq<char>>>,
    is_open: bool,
    sheet_count: int,
    e: SpreadsheetError,
) -> bool {
    let columns = sheet_columns(sheet, headers);
    if is_open {
        e is AlreadyStreaming
    } else if sheet_count == 0 {
        e.says("call add_sheet() before write_sheet()"@)
    } else if columns > 16_384 {
        e.says(columns_message(columns))
    } else if headers matches Some(h) && h.len() != columns {
        e == SpreadsheetError::RowLengthMismatch {
            expected: columns as usize,
            got: (headers->0).len() as usize,
        }
    } else {
        odd_row(sheet, columns, 0) matches Some(i) && e == SpreadsheetError::RowLengthMismatch {
            expected: columns as usize,
            got: sheet[i].len() as usize,
        }
    }
}

/// The number of cells that a sheet with headers asks the tables for at most.
pub open spec fn cell_count(rows: int, columns: int, headers: Option<Seq<Seq<char>>>) -> int {
    rows * columns + match headers {
        Some(h) => h.len() as int,
        None => 0,
    }
}

impl XlsxWriter {
    /// The tables are in order, and a sheet that is open is the last one.
    pub closed spec fn wf(self) -> bool {
        &&& self.tables.wf()
        &&& if self.stream.is_streaming {
            &&& self.stream.buffer is Some
            &&& self.stream.buffer->0@.wf()
            &&& self.stream.start_col == 0
            &&& self.sheet_list@.len() > 0
        } else {
            self.stream.is_idle()
        }
    }

    /// A writer for an empty workbook.
    pub fn new() -> (r: Self)
        ensures
            r.wf(),
            r@ == (XlsxBook {
                entries: Seq::empty(),
                sheets: Seq::empty(),
                tables: crate::sheet_tables::Tables {
                    strings: Seq::empty(),
                    uses: 0,
                    formats: Seq::empty(),
                },
                autofilter_is_on: false,
                compression_level: 1,
                open: None,
            }),
    {
        let r = XlsxWriter {
            entries: Vec::new(),
            sheet_list: Vec::new(),
            tables: SheetTables::new(),
            autofilter_is_on: false,
            compression_level: 1,
            stream: StreamingSheetState::new(),
            pending_sheet_head: String::new(),
        };
        assert(r@.entries =~= Seq::<Part>::empty());
        assert(r@.sheets =~= Seq::<Sheet>::empty());
        r
    }

    /// Sets the compression level of the archive, 1 to 9.
    pub fn set_compression_level(&mut self, level: i64) -> (r: SpreadsheetResult<()>)
        requires
            old(self).wf(),
        ensures
            final(self).wf(),
            match r {
                Ok(_) => 1 <= level <= 9 && final(self)@ == (XlsxBook {
                    compression_level: level,
                    ..old(self)@
                }),
                Err(e) => !(1 <= level <= 9) && e.says(
                    "compression level must be within 1..=9, got "@ + crate::text::decimal(
                        level as int,
                    ),
                ) && final(self)@ == old(self)@,
            },
    {
        if level < 1 || level > 9 {
            let mut message = "compression level must be within 1..=9, got ".to_owned();
            push_decimal(&mut message, level as i128);
            return Err(SpreadsheetError::InvalidFormat(message));
        }
        self.compression_level = level;
        Ok(())
    }

    /// Adds a sheet.
    pub fn add_sheet(&mut self, sheet_name: &str, hidden: bool)
        requires
            old(self).wf(),
            old(self)@.sheets.len() < usize::MAX - 8,
        ensures
            final(self).wf(),
            final(self)@ == old(self)@.with_sheet(sheet_name@, hidden),
    {
        self.register_sheet(sheet_name, hidden);
    }

    /// Starts a sheet that is written row by row. Call [`XlsxWriter::write_row`]
    /// for each row, then [`XlsxWriter::end_sheet`].
    pub fn start_sheet(
        &mut self,
        sheet_name: &str,
        column_count: usize,
        headers: Option<&[String]>,
        options: SheetOptions,
        numbers: &NumberTable,
    ) -> (r: SpreadsheetResult<()>)
        requires
            old(self).wf(),
            options.sample_rows matches Some(rows) ==> crate::formats::knows_sheet(
                *numbers,
                crate::formats::sheet_cells(rows@),
            ),
            old(self)@.sheets.len() < usize::MAX - 8,
            headers matches Some(h) ==> old(self)@.tables.has_room(h@.len() as int),
        ensures
            final(self).wf(),
            match r {
                Ok(_) => {
                    &&& column_count <= 16_384
                    &&& headers matches Some(h) ==> h@.len() == column_count
                    &&& old(self)@.open is None
                    &&& final(self)@ == old(self)@.with_started_sheet(
                        sheet_name@,
                        column_count as int,
                        crate::xlsx_cells::header_texts(headers),
                        options,
                        *numbers,
                    )
                },
                Err(e) => final(self)@ == old(self)@ && start_refused(
                    column_count,
                    crate::xlsx_cells::header_texts(headers),
                    old(self)@.open is Some,
                    e,
                ),
            },
    {
        if column_count > EXCEL_MAX_COLUMNS {
            return Err(too_many_columns(column_count));
        }
        if let Some(h) = headers {
            if h.len() != column_count {
                return Err(
                    SpreadsheetError::RowLengthMismatch { expected: column_count, got: h.len() },
                );
            }
        }
        let do_filter = options.do_autofilter && headers.is_some();
        let ghost before = self@;
        match self.stream.try_begin(column_count, do_filter, BigBuffer::default()) {
            Ok(_) => {},
            Err(e) => return Err(e),
        }
        self.register_sheet(sheet_name, options.hidden);
        let ghost hs = crate::xlsx_cells::header_texts(headers);
        assert(crate::writer_helpers::width_values(self.stream.col_widths@) =~= unknown_widths(
            column_count as int,
        ));
        match headers {
            Some(h) => apply_header_widths(&mut self.stream.col_widths, h, column_count),
            None => {},
        }
        match &options.sample_rows {
            Some(sample) => update_col_widths_from_rows(
                &mut self.stream.col_widths,
                sample,
                100,
                numbers,
            ),
            None => {},
        }
        let mut head = String::new();
        push_sheet_head(
            &mut head,
            &self.stream.col_widths,
            headers.is_some(),
            self.sheet_list.len() == 1,
        );
        push_header_row(&mut self.tables, &mut head, headers);
        self.pending_sheet_head = head;
        if headers.is_some() {
            self.stream.row_num = 1;
        }
        proof {
            let target = before.with_started_sheet(
                sheet_name@,
                column_count as int,
                hs,
                options,
                *numbers,
            );
            assert(self@.open->0.head =~= target.open->0.head);
            assert(self@.open->0.body =~= target.open->0.body);
        }
        Ok(())
    }

    /// Adds a sheet, whatever state the open sheet is in.
    fn register_sheet(&mut self, sheet_name: &str, hidden: bool)
        requires
            old(self).tables.wf(),
            old(self)@.sheets.len() < usize::MAX - 8,
        ensures
            final(self).entries == old(self).entries,
            final(self).tables == old(self).tables,
            final(self).autofilter_is_on == old(self).autofilter_is_on,
            final(self).compression_level == old(self).compression_level,
            final(self).stream == old(self).stream,
            final(self).pending_sheet_head == old(self).pending_sheet_head,
            final(self)@.sheets == old(self)@.with_sheet(sheet_name@, hidden).sheets,
            final(self).sheet_list@.len() == old(self).sheet_list@.len() + 1,
    {
        let ghost before = self@;
        let mut taken: Vec<Vec<char>> = Vec::new();
        let mut i: usize = 0;
        while i < self.sheet_list.len()
            invariant
                i <= self.sheet_list.len(),
                taken.len() == i,
                forall|j: int| 0 <= j < i ==> (#[trigger] taken@[j])@ == self.sheet_list@[j].name@,
            decreases self.sheet_list.len() - i,
        {
            taken.push(chars_of(self.sheet_list[i].name.as_str()));
            i += 1;
        }
        assert(crate::writer_helpers::char_views(taken@) =~= sheet_names(before.sheets));
        let name = free_sheet_name(sheet_name, &taken);
        self.sheet_list.push(SheetInfo { name, hidden, filter_header_range: None });
        assert(self@.sheets =~= before.with_sheet(sheet_name@, hidden).sheets);
    }

    /// Writes one row of the open sheet.
    pub fn write_row(&mut self, row: &[CellValue], numbers: &NumberTable) -> (r: SpreadsheetResult<()>)
        requires
            old(self).wf(),
            crate::formats::knows_row(*numbers, crate::formats::row_cells(row@)),
            old(self)@.tables.has_room(row@.len() as int),
            old(self)@.open matches Some(open) ==> open.rows < u32::MAX,
        ensures
            final(self).wf(),
            match r {
                Ok(_) => {
                    &&& old(self)@.open matches Some(open) && open.columns == row@.len()
                    &&& final(self)@ == old(self)@.with_row(
                        crate::formats::row_cells(row@),
                        *numbers,
                    )
                },
                Err(e) => final(self)@ == old(self)@ && match old(self)@.open {
                    Some(open) => open.columns != row@.len() && e
                        == SpreadsheetError::RowLengthMismatch {
                        expected: open.columns as usize,
                        got: row@.len() as usize,
                    },
                    None => if row@.len() == 0 {
                        e is NotStreaming
                    } else {
                        e == SpreadsheetError::RowLengthMismatch {
                            expected: 0,
                            got: row@.len() as usize,
                        }
                    },
                },
            },
    {
        let expected: usize = self.stream.end_col - self.stream.start_col;
        if row.len() != expected {
            return Err(SpreadsheetError::RowLengthMismatch { expected, got: row.len() });
        }
        if !self.stream.is_streaming {
            return Err(SpreadsheetError::NotStreaming);
        }
        let ghost before = self@;
        let row_num: u32 = self.stream.row_num + 1;
        let mut xml = String::new();
        push_row(&mut self.tables, &mut xml, row, numbers, true);
        let ghost line = crate::formats::row_cells(row@);
        assert(xml@ =~= crate::xlsx_cells::row(before.tables, line, *numbers, true).xml);
        match self.stream.assert_streaming() {
            Ok(buffer) => {
                buffer.write_str(xml.as_str());
            },
            Err(e) => return Err(e),
        }
        self.stream.row_num = row_num;
        Ok(())
    }

    /// Puts the filter on the last sheet, if it is to have one.
    fn set_filter(&mut self, filtered: bool, total_rows: u64, columns: usize)
        requires
            old(self).tables.wf(),
            old(self)@.sheets.len() > 0,
            filtered ==> columns > 0,
        ensures
            final(self).entries == old(self).entries,
            final(self).tables == old(self).tables,
            final(self).compression_level == old(self).compression_level,
            final(self).stream == old(self).stream,
            final(self).pending_sheet_head == old(self).pending_sheet_head,
            final(self)@ == old(self)@.with_filter(filtered, total_rows as int, columns as int),
    {
        let ghost before = self@;
        if filtered {
            self.autofilter_is_on = true;
            let last: usize = self.sheet_list.len() - 1;
            let range = filter_range_text(self.sheet_list[last].name.as_str(), total_rows, columns);
            let name = self.sheet_list[last].name.clone();
            let hidden = self.sheet_list[last].hidden;
            self.sheet_list.set(last, SheetInfo { name, hidden, filter_header_range: Some(range) });
            assert(self@.sheets =~= before.with_filter(
                filtered,
                total_rows as int,
                columns as int,
            ).sheets);
        }
    }

    /// Adds the bytes of the last sheet to the archive.
    fn add_part(&mut self, data: EntryData)
        ensures
            final(self).sheet_list == old(self).sheet_list,
            final(self).tables == old(self).tables,
            final(self).compression_level == old(self).compression_level,
            final(self).stream == old(self).stream,
            final(self).pending_sheet_head == old(self).pending_sheet_head,
            final(self)@ == old(self)@.with_part(data@),
    {
        let ghost before = self@;
        let mut name = "xl/worksheets/sheet".to_owned();
        push_decimal(&mut name, self.sheet_list.len() as i128);
        name.append(".xml");
        self.entries.push(Entry { name, data });
        assert(self@.entries =~= before.with_part(data@).entries);
    }

    /// Closes the open sheet and adds it to the archive.
    pub fn end_sheet(&mut self) -> (r: SpreadsheetResult<()>)
        requires
            old(self).wf(),
        ensures
            final(self).wf(),
            match r {
                Ok(_) => old(self)@.open is Some && final(self)@ == old(self)@.with_ended_sheet(),
                Err(e) => old(self)@.open is None && e is NotStreaming && final(self)@ == old(
                    self,
                )@,
            },
    {
        if !self.stream.is_streaming {
            return Err(SpreadsheetError::NotStreaming);
        }
        let ghost before = self@;
        let columns: usize = self.stream.end_col;
        let total_rows: u64 = self.stream.row_num as u64;
        let filtered = self.stream.do_autofilter && columns > 0 && total_rows > 0;
        let mut head = worksheet_start();
        push_dimension(&mut head, total_rows, columns);
        head.append(self.pending_sheet_head.as_str());
        assert(head@ =~= sheet_start(before.open->0.rows, before.open->0.columns)
            + before.open->0.head);
        let mut end = String::new();
        push_sheet_end(&mut end, filtered, total_rows, columns);
        assert(end@ =~= sheet_end(filtered, before.open->0.rows, before.open->0.columns));
        let mut chunks: Vec<Vec<u8>> = Vec::new();
        chunks.push(vstd::slice::slice_to_vec(head.as_str().as_bytes()));
        let ghost first = chunks@;
        let mut more = match self.stream.assert_streaming() {
            Ok(buffer) => {
                buffer.write_str(end.as_str());
                buffer.chunks_drain()
            },
            Err(e) => return Err(e),
        };
        let ghost rest = more@;
        chunks.append(&mut more);
        let data = EntryData::Chunks(chunks);
        proof {
            assert(chunks@ =~= first + rest);
            lemma_flat_concat(first, rest);
            assert(crate::big_buffer::flat(crate::big_buffer::chunk_views(first))
                =~= vstd::utf8::encode_utf8(head@)) by {
                reveal_with_fuel(crate::big_buffer::flat, 2);
                assert(crate::big_buffer::chunk_views(first).drop_last() =~= Seq::<
                    Seq<u8>,
                >::empty());
            }
        }
        self.stream.end();
        self.pending_sheet_head = String::new();
        let ghost closed = XlsxBook { open: None, ..before };
        assert(self@ =~= closed);
        self.set_filter(filtered, total_rows, columns);
        self.add_part(data);
        Ok(())
    }

    /// Writes the last added sheet at once.
    pub fn write_sheet(
        &mut self,
        rows: &Vec<Vec<CellValue>>,
        headers: Option<&[String]>,
        do_autofilter: bool,
        numbers: &NumberTable,
    ) -> (r: SpreadsheetResult<()>)
        requires
            old(self).wf(),
            crate::formats::knows_sheet(*numbers, crate::formats::sheet_cells(rows@)),
            rows@.len() < usize::MAX,
            old(self)@.tables.has_room(
                cell_count(
                    rows@.len() as int,
                    sheet_columns(
                        crate::formats::sheet_cells(rows@),
                        crate::xlsx_cells::header_texts(headers),
                    ),
                    crate::xlsx_cells::header_texts(headers),
                ),
            ),
        ensures
            final(self).wf(),
            ({
                let sheet = crate::formats::sheet_cells(rows@);
                let hs = crate::xlsx_cells::header_texts(headers);
                let columns = sheet_columns(sheet, hs);
                match r {
                    Ok(_) => {
                        &&& old(self)@.open is None
                        &&& old(self)@.sheets.len() > 0
                        &&& columns <= 16_384
                        &&& hs matches Some(h) ==> h.len() == columns
                        &&& odd_row(sheet, columns, 0) is None
                        &&& final(self)@ == old(self)@.with_written_sheet(
                            columns,
                            sheet,
                            hs,
                            do_autofilter,
                            *numbers,
                        )
                    },
                    Err(e) => final(self)@ == old(self)@ && write_refused(
                        sheet,
                        hs,
                        old(self)@.open is Some,
                        old(self)@.sheets.len() as int,
                        e,
                    ),
                }
            }),
    {
        let ghost before = self@;
        let ghost sheet = crate::formats::sheet_cells(rows@);
        let ghost hs = crate::xlsx_cells::header_texts(headers);
        if self.stream.is_streaming {
            return Err(SpreadsheetError::AlreadyStreaming);
        }
        if self.sheet_list.len() == 0 {
            return Err(invalid("call add_sheet() before write_sheet()"));
        }
        let columns: usize = count_columns(rows, headers);
        if columns > EXCEL_MAX_COLUMNS {
            return Err(too_many_columns(columns));
        }
        if let Some(h) = headers {
            if h.len() != columns {
                return Err(
                    SpreadsheetError::RowLengthMismatch { expected: columns, got: h.len() },
                );
            }
        }
        match find_odd_row(rows, columns) {
            Some(got) => {
                return Err(SpreadsheetError::RowLengthMismatch { expected: columns, got });
            },
            None => {},
        }
        let mut widths = init_col_widths(columns);
        assert(crate::writer_helpers::width_values(widths@) =~= unknown_widths(columns as int));
        match headers {
            Some(h) => apply_header_widths(&mut widths, h, columns),
            None => {},
        }
        update_col_widths_from_rows(&mut widths, rows, 100, numbers);
        let total_rows: u64 = rows.len() as u64 + if headers.is_some() {
            1
        } else {
            0
        };
        let filtered = do_autofilter && headers.is_some() && columns > 0 && total_rows > 0;
        let mut xml = worksheet_start();
        push_dimension(&mut xml, total_rows, columns);
        push_sheet_head(&mut xml, &widths, headers.is_some(), self.sheet_list.len() == 1);
        let ghost head = xml@;
        let ghost t0 = self.tables@;
        assert(rows@.len() * columns >= 0) by (nonlinear_arith);
        push_header_row(&mut self.tables, &mut xml, headers);
        push_rows(&mut self.tables, &mut xml, rows, columns, numbers);
        push_sheet_end(&mut xml, filtered, total_rows, columns);
        proof {
            let header = crate::xlsx_cells::header_row(before.tables, hs);
            let body = crate::xlsx_cells::rows(header.tables, sheet, sheet.len(), *numbers, false);
            assert(xml@ =~= sheet_start(total_rows as int, columns as int)
                + crate::xlsx_cells::sheet_head(
                crate::writer_helpers::width_values(widths@),
                headers is Some,
                before.sheets.len() == 1,
            ) + header.xml + body.xml + sheet_end(filtered, total_rows as int, columns as int));
            assert(self@ =~= (XlsxBook { tables: body.tables, ..before }));
        }
        self.set_filter(filtered, total_rows, columns);
        self.add_part(EntryData::Bytes(vstd::slice::slice_to_vec(xml.as_str().as_bytes())));
        Ok(())
    }
}

/// A part whose bytes are the UTF-8 bytes of a text.
pub open spec fn text_part(name: Seq<char>, text: Seq<char>) -> Part {
    Part { name, bytes: vstd::utf8::encode_utf8(text) }
}

impl XlsxBook {
    /// All parts of the archive, in the order in which they are written.
    pub open spec fn archive(self) -> Seq<Part> {
        self.entries + seq![
            text_part(
                "xl/sharedStrings.xml"@,
                crate::xlsx_parts::shared_strings_xml(self.tables.strings, self.tables.uses),
            ),
            text_part("xl/styles.xml"@, crate::xlsx_style_part::styles_xml(self.tables.formats)),
            text_part(
                "xl/workbook.xml"@,
                crate::xlsx_parts::workbook_xml(self.sheets, self.autofilter_is_on),
            ),
            text_part(
                "[Content_Types].xml"@,
                crate::xlsx_parts::content_types_xml(self.sheets.len()),
            ),
            text_part("_rels/.rels"@, crate::xlsx_parts::GLOBAL_RELS@),
            text_part(
                "xl/_rels/workbook.xml.rels"@,
                crate::xlsx_parts::workbook_rels(self.sheets.len()),
            ),
        ]
    }
}

/// A part whose bytes are the UTF-8 bytes of a text.
pub fn text_entry(name: &str, text: &str) -> (e: Entry)
    ensures
        e.name@ == name@,
        e.data@ == vstd::utf8::encode_utf8(text@),
{
    Entry {
        name: name.to_owned(),
        data: EntryData::Bytes(vstd::slice::slice_to_vec(text.as_bytes())),
    }
}

impl XlsxWriter {
    /// The parts of the finished archive, in order, and the compression level to
    /// write them with.
    pub fn finalize(self) -> (r: SpreadsheetResult<(Vec<Entry>, i64)>)
        requires
            self.wf(),
        ensures
            match r {
                Ok((entries, level)) => {
                    &&& self@.open is None
                    &&& parts(entries@) == self@.archive()
                    &&& level == self@.compression_level
                },
                Err(e) => self@.open is Some && e is StreamingSheetOpen,
            },
    {
        if self.stream.is_streaming {
            return Err(SpreadsheetError::StreamingSheetOpen);
        }
        let ghost book = self@;
        let sst = render_shared_strings(&self.tables.strings, self.tables.uses);
        let styles = render_styles(&self.tables.formats);
        let workbook = render_workbook(&self.sheet_list, self.autofilter_is_on);
        let content_types = render_content_types(self.sheet_list.len());
        let rels = render_workbook_rels(self.sheet_list.len());
        let level: i64 = self.compression_level;
        let mut entries = self.entries;
        entries.push(text_entry("xl/sharedStrings.xml", sst.as_str()));
        entries.push(text_entry("xl/styles.xml", styles.as_str()));
        entries.push(text_entry("xl/workbook.xml", workbook.as_str()));
        entries.push(text_entry("[Content_Types].xml", content_types.as_str()));
        entries.push(text_entry("_rels/.rels", GLOBAL_RELS));
        entries.push(text_entry("xl/_rels/workbook.xml.rels", rels.as_str()));
        assert(parts(entries@) =~= book.archive());
        Ok((entries, level))
    }

    /// The number of sheets added so far.
    pub fn sheet_count(&self) -> (n: usize)
        ensures
            n == self@.sheets.len(),
    {
        self.sheet_list.len()
    }

    /// The name of a sheet, by its zero-based index.
    pub fn sheet_name(&self, index: usize) -> (r: Option<&str>)
        ensures
            match r {
                Some(name) => index < self@.sheets.len() && name@ == self@.sheets[index as int].name,
                None => index >= self@.sheets.len(),
            },
    {
        if index < self.sheet_list.len() {
            Some(self.sheet_list[index].name.as_str())
        } else {
            None
        }
    }

    /// Whether the counters have room for `n` more cells.
    pub fn has_room(&self, n: usize) -> (b: bool)
        ensures
            b == self@.tables.has_room(n as int),
    {
        n as u128 + self.tables.uses as u128 <= u64::MAX as u128 && n as u128
            + self.tables.formats.len() as u128 <= 0xffff_ff37
    }
}

proof fn lemma_flat_concat(a: Seq<Vec<u8>>, b: Seq<Vec<u8>>)
    ensures
        crate::big_buffer::flat(crate::big_buffer::chunk_views(a + b)) == crate::big_buffer::flat(
            crate::big_buffer::chunk_views(a),
        ) + crate::big_buffer::flat(crate::big_buffer::chunk_views(b)),
    decreases b.len(),
{
    let va = crate::big_buffer::chunk_views(a);
    let vb = crate::big_buffer::chunk_views(b);
    let vab = crate::big_buffer::chunk_views(a + b);
    if b.len() == 0 {
        assert(vab =~= va);
        assert(crate::big_buffer::flat(va) + crate::big_buffer::flat(vb) =~= crate::big_buffer::flat(
            va,
        ));
    } else {
        lemma_flat_concat(a, b.drop_last());
        assert(vab.drop_last() =~= crate::big_buffer::chunk_views(a + b.drop_last()));
        assert(vb.drop_last() =~= crate::big_buffer::chunk_views(b.drop_last()));
        assert(crate::big_buffer::flat(vab) =~= crate::big_buffer::flat(va)
            + crate::big_buffer::flat(vb));
    }
}

} // verus!
