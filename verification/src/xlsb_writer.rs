//! The XLSB writer.
//!
//! The writer collects the parts of the archive; [`XlsbWriter::finalize`] hands
//! them out. A part's bytes are given by the spec functions of the modules that
//! render it.

use vstd::prelude::*;
use crate::biff12::append_bytes;
use crate::big_buffer::{push_u32_le, BigBuffer, EntryData};
use crate::datetime::EXCEL_MAX_COLUMNS;
use crate::error::{invalid, SpreadsheetError, SpreadsheetResult};
use crate::formats::CellValue;
use crate::number::NumberTable;
use crate::sheet_tables::SheetTables;
use crate::streaming_state::StreamingSheetState;
use crate::text::{chars_of, push_decimal};
use crate::writer_helpers::{
    apply_header_widths, default_col_width, free_sheet_name, init_col_widths,
    update_col_widths_from_rows,
};
use crate::xlsb_cells::{
    push_bool, push_double, push_header_row, push_rk, push_row, push_row_header, push_rows,
    push_sst, to_low32,
};
use crate::xlsb_parts::{
    count_filters, render_shared_strings, render_styles, render_workbook, BinSheet, BinSheetInfo,
    FilterData,
};
use crate::xlsb_templates::XlsbTemplates;
use crate::xlsb_xml::{
    render_content_types, render_sheet_part_rels, render_workbook_rels, GLOBAL_RELS,
};
use crate::xlsx_writer::{
    count_columns, find_odd_row, text_entry, too_many_columns, Entry, Part,
};

verus! {

/// Options for [`XlsbWriter::start_sheet`].
#[derive(Debug, Clone)]
pub struct XlsbSheetOptions {
    pub hidden: bool,
    pub do_autofilter: bool,
    pub sample_rows: Option<Vec<Vec<CellValue>>>,
}

impl XlsbSheetOptions {
    pub fn new() -> (r: Self)
        ensures
            !r.hidden,
            r.do_autofilter,
            r.sample_rows is None,
    {
        XlsbSheetOptions { hidden: false, do_autofilter: true, sample_rows: None }
    }
}

impl Default for XlsbSheetOptions {
    fn default() -> (r: Self)
        ensures
            !r.hidden,
            !r.do_autofilter,
            r.sample_rows is None,
    {
        XlsbSheetOptions { hidden: false, do_autofilter: false, sample_rows: None }
    }
}

/// The width byte of a column.
pub open spec fn width_byte(width: int) -> u8 {
    let written = crate::writer_helpers::written_width(width, true);
    if written > 25500 {
        255
    } else {
        (written / 100) as u8
    }
}

/// The record of a column.
pub open spec fn column_record(i: int, width: int) -> Seq<u8> {
    seq![0u8, 60u8, 18u8] + crate::big_buffer::le32(crate::xlsb_cells::low32(i))
        + crate::big_buffer::le32(crate::xlsb_cells::low32(i)) + seq![
        0u8,
        width_byte(width),
        0u8,
        0u8,
        0u8,
        0u8,
        0u8,
        0u8,
        2u8,
    ]
}

/// The records of the first `n` columns.
pub open spec fn column_records(widths: Seq<int>, n: nat) -> Seq<u8>
    decreases n,
{
    if n == 0 {
        Seq::empty()
    } else {
        column_records(widths, (n - 1) as nat) + column_record(n - 1, widths[n - 1])
    }
}

/// Everything before the rows of a sheet.
#[verifier::opaque]
pub open spec fn sheet_head(
    t: crate::xlsb_templates::Templates,
    widths: Seq<int>,
    has_headers: bool,
    is_first: bool,
) -> Seq<u8> {
    t.sheet1_bytes.take(40) + crate::big_buffer::le32(0) + crate::big_buffer::le32(
        crate::xlsb_cells::low32(widths.len() as int),
    ) + t.sheet1_bytes.subrange(48, 54) + seq![
        if is_first {
            t.sheet1_bytes[54]
        } else {
            0x9cu8
        },
    ] + t.sheet1_bytes.subrange(55, 84) + (if has_headers {
        t.sticky_header_a1
    } else {
        Seq::empty()
    }) + t.sheet1_bytes.subrange(84, 159) + seq![134u8, 3u8] + column_records(widths, widths.len())
        + seq![0u8, 135u8, 3u8, 0u8] + t.sheet1_bytes.subrange(159, 175) + seq![38u8, 0u8]
}

/// Everything behind the rows of a sheet.
#[verifier::opaque]
pub open spec fn sheet_tail(
    t: crate::xlsb_templates::Templates,
    filtered: bool,
    rows: int,
    columns: int,
) -> Seq<u8> {
    t.sheet1_bytes.subrange(218, 290) + (if filtered {
        t.autofilter_start + crate::big_buffer::le32(0) + crate::big_buffer::le32(
            crate::xlsb_cells::low32(rows - 1),
        ) + crate::big_buffer::le32(0) + crate::big_buffer::le32(
            crate::xlsb_cells::low32(columns - 1),
        ) + t.autofilter_end
    } else {
        Seq::empty()
    }) + t.sheet1_bytes.skip(290)
}

fn push_part_of(out: &mut Vec<u8>, bytes: &Vec<u8>, from: usize, to: usize)
    requires
        from <= to <= bytes@.len(),
    ensures
        final(out)@ == old(out)@ + bytes@.subrange(from as int, to as int),
{
    append_bytes(out, vstd::slice::slice_subrange(bytes.as_slice(), from, to));
}

fn push_column(out: &mut Vec<u8>, i: usize, width: i64)
    ensures
        final(out)@ == old(out)@ + column_record(i as int, width as int),
{
    let ghost before = out@;
    let written: i64 = default_col_width(width, true);
    let byte: u8 = if written > 25500 {
        255
    } else {
        (written / 100) as u8
    };
    out.push(0);
    out.push(60);
    out.push(18);
    push_u32_le(out, to_low32(i as u64));
    push_u32_le(out, to_low32(i as u64));
    out.push(0);
    out.push(byte);
    out.push(0);
    out.push(0);
    out.push(0);
    out.push(0);
    out.push(0);
    out.push(0);
    out.push(2);
    assert(out@ =~= before + column_record(i as int, width as int));
}

fn render_sheet_head(
    t: &XlsbTemplates,
    widths: &Vec<i64>,
    has_headers: bool,
    is_first: bool,
) -> (out: Vec<u8>)
    requires
        t@.sheet1_bytes.len() >= 290,
    ensures
        out@ == sheet_head(
            t@,
            crate::writer_helpers::width_values(widths@),
            has_headers,
            is_first,
        ),
{
    reveal(sheet_head);
    let ghost ws = crate::writer_helpers::width_values(widths@);
    let ghost s = t@.sheet1_bytes;
    let mut out: Vec<u8> = Vec::new();
    push_part_of(&mut out, &t.sheet1_bytes, 0, 40);
    assert(out@ =~= s.take(40));
    push_u32_le(&mut out, 0);
    push_u32_le(&mut out, to_low32(widths.len() as u64));
    push_part_of(&mut out, &t.sheet1_bytes, 48, 54);
    let ghost o1 = out@;
    out.push(
        if is_first {
            t.sheet1_bytes[54]
        } else {
            0x9c
        },
    );
    assert(out@ =~= o1 + seq![
        if is_first {
            s[54]
        } else {
            0x9cu8
        },
    ]);
    push_part_of(&mut out, &t.sheet1_bytes, 55, 84);
    let ghost o2 = out@;
    if has_headers {
        append_bytes(&mut out, &t.sticky_header_a1);
    }
    assert(out@ =~= o2 + if has_headers {
        t@.sticky_header_a1
    } else {
        Seq::empty()
    });
    push_part_of(&mut out, &t.sheet1_bytes, 84, 159);
    let ghost o3 = out@;
    out.push(134);
    out.push(3);
    assert(out@ =~= o3 + seq![134u8, 3u8]);
    let ghost open = out@;
    assert(open + Seq::<u8>::empty() =~= open);
    let mut i: usize = 0;
    while i < widths.len()
        invariant
            i <= widths.len(),
            ws == crate::writer_helpers::width_values(widths@),
            out@ == open + column_records(ws, i as nat),
        decreases widths.len() - i,
    {
        push_column(&mut out, i, widths[i]);
        assert(out@ =~= open + column_records(ws, i as nat + 1));
        i += 1;
    }
    let ghost o4 = out@;
    out.push(0);
    out.push(135);
    out.push(3);
    out.push(0);
    assert(out@ =~= o4 + seq![0u8, 135u8, 3u8, 0u8]);
    push_part_of(&mut out, &t.sheet1_bytes, 159, 175);
    let ghost o5 = out@;
    out.push(38);
    out.push(0);
    assert(out@ =~= o5 + seq![38u8, 0u8]);
    out
}

fn render_sheet_tail(t: &XlsbTemplates, filtered: bool, rows: u64, columns: usize) -> (out: Vec<u8>)
    requires
        t@.sheet1_bytes.len() >= 290,
        filtered ==> rows > 0 && columns > 0,
    ensures
        out@ == sheet_tail(t@, filtered, rows as int, columns as int),
{
    reveal(sheet_tail);
    let mut out: Vec<u8> = Vec::new();
    push_part_of(&mut out, &t.sheet1_bytes, 218, 290);
    assert(out@ =~= t@.sheet1_bytes.subrange(218, 290));
    let ghost o1 = out@;
    if filtered {
        append_bytes(&mut out, &t.autofilter_start);
        push_u32_le(&mut out, 0);
        push_u32_le(&mut out, to_low32(rows - 1));
        push_u32_le(&mut out, 0);
        push_u32_le(&mut out, to_low32(columns as u64 - 1));
        append_bytes(&mut out, &t.autofilter_end);
    }
    assert(out@ =~= o1 + if filtered {
        t@.autofilter_start + crate::big_buffer::le32(0) + crate::big_buffer::le32(
            crate::xlsb_cells::low32(rows - 1),
        ) + crate::big_buffer::le32(0) + crate::big_buffer::le32(
            crate::xlsb_cells::low32(columns - 1),
        ) + t@.autofilter_end
    } else {
        Seq::empty()
    });
    let end: usize = t.sheet1_bytes.len();
    push_part_of(&mut out, &t.sheet1_bytes, 290, end);
    assert(t@.sheet1_bytes.subrange(290, end as int) =~= t@.sheet1_bytes.skip(290));
    out
}

/// The sheet that is written row by row: its columns, whether it gets a filter,
/// the rows written, and its bytes so far.
pub struct BinOpenSheet {
    pub columns: int,
    pub filter: bool,
    pub rows: int,
    pub bytes: Seq<u8>,
}

/// What a writer stands for.
pub struct XlsbBook {
    pub templates: crate::xlsb_templates::Templates,
    pub entries: Seq<Part>,
    pub sheets: Seq<BinSheet>,
    pub tables: crate::sheet_tables::Tables,
    pub autofilter_is_on: bool,
    pub compression_level: i64,
    pub open: Option<BinOpenSheet>,
}

/// Writes a workbook as the parts of an XLSB archive.
pub struct XlsbWriter {
    templates: XlsbTemplates,
    entries: Vec<Entry>,
    sheet_list: Vec<BinSheetInfo>,
    tables: SheetTables,
    autofilter_is_on: bool,
    compression_level: i64,
    stream: StreamingSheetState,
}

impl View for XlsbWriter {
    type V = XlsbBook;

    closed spec fn view(&self) -> XlsbBook {
        XlsbBook {
            templates: self.templates@,
            entries: crate::xlsx_writer::parts(self.entries@),
            sheets: crate::xlsb_parts::bin_sheets(self.sheet_list@),
            tables: self.tables@,
            autofilter_is_on: self.autofilter_is_on,
            compression_level: self.compression_level,
            open: if self.stream.is_streaming {
                Some(
                    BinOpenSheet {
                        columns: self.stream.end_col as int,
                        filter: self.stream.do_autofilter,
                        rows: self.stream.row_num as int,
                        bytes: self.stream.buffer->0@.bytes(),
                    },
                )
            } else {
                None
            },
        }
    }
}

/// The names of sheets.
pub open spec fn bin_sheet_names(sheets: Seq<BinSheet>) -> Seq<Seq<char>> {
    Seq::new(sheets.len(), |i: int| sheets[i].name)
}

/// The path of a sheet's part, by the number of the sheet.
pub open spec fn bin_sheet_path(n: int) -> Seq<char> {
    "xl/worksheets/sheet"@ + crate::text::decimal(n) + ".bin"@
}

impl XlsbBook {
    /// The workbook with one more sheet.
    pub open spec fn with_sheet(self, name: Seq<char>, hidden: bool) -> XlsbBook {
        XlsbBook {
            sheets: self.sheets.push(
                BinSheet {
                    name: crate::writer_helpers::new_sheet_name(
                        name,
                        bin_sheet_names(self.sheets),
                    ),
                    hidden,
                    filter: None,
                },
            ),
            ..self
        }
    }

    /// The workbook with a sheet begun that is written row by row.
    pub open spec fn with_started_sheet(
        self,
        name: Seq<char>,
        columns: int,
        headers: Option<Seq<Seq<char>>>,
        options: XlsbSheetOptions,
        numbers: NumberTable,
    ) -> XlsbBook {
        let added = self.with_sheet(name, options.hidden);
        let widths = crate::xlsx_writer::fitted_widths(
            columns,
            headers,
            crate::xlsx_writer::sample_cells(options.sample_rows),
            numbers,
        );
        let header = crate::xlsb_cells::header_row(self.tables, headers, columns);
        XlsbBook {
            tables: header.tables,
            open: Some(
                BinOpenSheet {
                    columns,
                    filter: options.do_autofilter && headers is Some,
                    rows: if headers is Some {
                        1
                    } else {
                        0
                    },
                    bytes: sheet_head(
                        self.templates,
                        widths,
                        headers is Some,
                        added.sheets.len() == 1,
                    ) + header.bytes,
                },
            ),
            ..added
        }
    }

    /// What one more row of the open sheet leads to.
    pub open spec fn next_row(
        self,
        line: Seq<crate::formats::Cell>,
        numbers: NumberTable,
    ) -> crate::xlsb_cells::Binary {
        let open = self.open->0;
        crate::xlsb_cells::row(self.tables, line, open.rows as u32, open.columns, numbers)
    }

    /// The workbook with one more row in the open sheet.
    pub open spec fn with_row(
        self,
        line: Seq<crate::formats::Cell>,
        numbers: NumberTable,
    ) -> XlsbBook {
        let open = self.open->0;
        let r = self.next_row(line, numbers);
        XlsbBook {
            tables: r.tables,
            open: Some(
                BinOpenSheet { rows: open.rows + 1, bytes: open.bytes + r.bytes, ..open },
            ),
            ..self
        }
    }

    /// The workbook with the last sheet filtered, if it is to be.
    pub open spec fn with_filter(self, filtered: bool, rows: int, columns: int) -> XlsbBook {
        let last = self.sheets.len() - 1;
        if filtered {
            XlsbBook {
                autofilter_is_on: true,
                sheets: self.sheets.update(
                    last,
                    BinSheet {
                        filter: Some(
                            FilterData {
                                start_row: 0,
                                end_row: (rows - 1) as u32,
                                start_column: 0,
                                end_column: (columns - 1) as u32,
                            },
                        ),
                        ..self.sheets[last]
                    },
                ),
                ..self
            }
        } else {
            self
        }
    }

    /// The workbook with the bytes of its last sheet added to the archive.
    pub open spec fn with_part(self, bytes: Seq<u8>) -> XlsbBook {
        XlsbBook {
            entries: self.entries.push(
                Part { name: bin_sheet_path(self.sheets.len() as int), bytes },
            ),
            ..self
        }
    }

    /// The workbook with the open sheet closed.
    pub open spec fn with_ended_sheet(self) -> XlsbBook {
        let open = self.open->0;
        let filtered = open.filter && open.columns > 0 && open.rows > 0;
        let closed = XlsbBook { open: None, ..self };
        closed.with_filter(filtered, open.rows, open.columns).with_part(
            open.bytes + sheet_tail(self.templates, filtered, open.rows, open.columns),
        )
    }

    /// What the header row and the rows of a sheet lead to.
    pub open spec fn sheet_rows(
        self,
        columns: int,
        sheet: Seq<Seq<crate::formats::Cell>>,
        headers: Option<Seq<Seq<char>>>,
        numbers: NumberTable,
    ) -> crate::xlsb_cells::Binary {
        let header = crate::xlsb_cells::header_row(self.tables, headers, columns);
        let first: int = if headers is Some {
            1
        } else {
            0
        };
        let body = crate::xlsb_cells::rows(
            header.tables,
            sheet,
            sheet.len(),
            first,
            columns,
            numbers,
        );
        crate::xlsb_cells::Binary { bytes: header.bytes + body.bytes, ..body }
    }

    /// The workbook with a whole sheet written.
    pub open spec fn with_written_sheet(
        self,
        columns: int,
        sheet: Seq<Seq<crate::formats::Cell>>,
        headers: Option<Seq<Seq<char>>>,
        do_autofilter: bool,
        numbers: NumberTable,
    ) -> XlsbBook {
        let widths = crate::xlsx_writer::fitted_widths(columns, headers, Some(sheet), numbers);
        let filtered = do_autofilter && headers is Some && columns > 0;
        let body = self.sheet_rows(columns, sheet, headers, numbers);
        let written = XlsbBook { tables: body.tables, ..self };
        let total_rows = sheet.len() + 1int;
        written.with_filter(filtered, total_rows, columns).with_part(
            sheet_head(self.templates, widths, headers is Some, self.sheets.len() == 1)
                + body.bytes + sheet_tail(self.templates, filtered, total_rows, columns),
        )
    }
}

impl XlsbWriter {
    /// The tables are in order, the templates can be used, and a sheet that is
    /// open is the last one.
    pub closed spec fn wf(self) -> bool {
        &&& self.tables.wf()
        &&& self.tables@.formats.len() <= 251
        &&& self.templates@.wf()
        &&& if self.stream.is_streaming {
            &&& self.stream.buffer is Some
            &&& self.stream.buffer->0@.wf()
            &&& self.stream.start_col == 0
            &&& self.stream.end_col <= 16_384
            &&& self.sheet_list@.len() > 0
        } else {
            self.stream.is_idle()
        }
    }

    /// A writer for an empty workbook.
    pub fn new(templates: XlsbTemplates) -> (r: Self)
        requires
            templates@.wf(),
        ensures
            r.wf(),
            r@ == (XlsbBook {
                templates: templates@,
                entries: Seq::empty(),
                sheets: Seq::empty(),
                tables: crate::sheet_tables::Tables {
                    strings: Seq::empty(),
                    uses: 0,
                    formats: Seq::empty(),
                },
                autofilter_is_on: false,
                compression_level: 1,
                open: None,
            }),
    {
        let r = XlsbWriter {
            templates,
            entries: Vec::new(),
            sheet_list: Vec::new(),
            tables: SheetTables::new(),
            autofilter_is_on: false,
            compression_level: 1,
            stream: StreamingSheetState::new(),
        };
        assert(r@.entries =~= Seq::<Part>::empty());
        assert(r@.sheets =~= Seq::<BinSheet>::empty());
        r
    }

    /// Sets the compression level of the archive, 1 to 9.
    pub fn set_compression_level(&mut self, level: i64) -> (r: SpreadsheetResult<()>)
        requires
            old(self).wf(),
        ensures
            final(self).wf(),
            match r {
                Ok(_) => 1 <= level <= 9 && final(self)@ == (XlsbBook {
                    compression_level: level,
                    ..old(self)@
                }),
                Err(e) => !(1 <= level <= 9) && e.says(
                    "compression level must be within 1..=9, got "@ + crate::text::decimal(
                        level as int,
                    ),
                ) && final(self)@ == old(self)@,
            },
    {
        if level < 1 || level > 9 {
            let mut message = "compression level must be within 1..=9, got ".to_owned();
            push_decimal(&mut message, level as i128);
            return Err(SpreadsheetError::InvalidFormat(message));
        }
        self.compression_level = level;
        Ok(())
    }

    /// Adds a sheet.
    pub fn add_sheet(&mut self, sheet_name: &str, hidden: bool)
        requires
            old(self).wf(),
            old(self)@.sheets.len() < usize::MAX - 8,
        ensures
            final(self).wf(),
            final(self)@ == old(self)@.with_sheet(sheet_name@, hidden),
    {
        self.register_sheet(sheet_name, hidden);
    }

    /// Adds a sheet, whatever state the open sheet is in.
    fn register_sheet(&mut self, sheet_name: &str, hidden: bool)
        requires
            old(self)@.sheets.len() < usize::MAX - 8,
        ensures
            final(self).templates == old(self).templates,
            final(self).entries == old(self).entries,
            final(self).tables == old(self).tables,
            final(self).autofilter_is_on == old(self).autofilter_is_on,
            final(self).compression_level == old(self).compression_level,
            final(self).stream == old(self).stream,
            final(self)@.sheets == old(self)@.with_sheet(sheet_name@, hidden).sheets,
            final(self).sheet_list@.len() == old(self).sheet_list@.len() + 1,
    {
        let ghost before = self@;
        let mut taken: Vec<Vec<char>> = Vec::new();
        let mut i: usize = 0;
        while i < self.sheet_list.len()
            invariant
                i <= self.sheet_list.len(),
                taken.len() == i,
                forall|j: int| 0 <= j < i ==> (#[trigger] taken@[j])@ == self.sheet_list@[j].name@,
            decreases self.sheet_list.len() - i,
        {
            taken.push(chars_of(self.sheet_list[i].name.as_str()));
            i += 1;
        }
        assert(crate::writer_helpers::char_views(taken@) =~= bin_sheet_names(before.sheets));
        let name = free_sheet_name(sheet_name, &taken);
        self.sheet_list.push(BinSheetInfo { name, hidden, filter_data: None });
        assert(self@.sheets =~= before.with_sheet(sheet_name@, hidden).sheets);
    }

    /// Starts a sheet that is written row by row. Call [`XlsbWriter::write_row`]
    /// for each row, then [`XlsbWriter::end_sheet`].
    pub fn start_sheet(
        &mut self,
        sheet_name: &str,
        column_count: usize,
        headers: Option<&[String]>,
        options: XlsbSheetOptions,
        numbers: &NumberTable,
    ) -> (r: SpreadsheetResult<()>)
        requires
            old(self).wf(),
            options.sample_rows matches Some(rows) ==> crate::formats::knows_sheet(
                *numbers,
                crate::formats::sheet_cells(rows@),
            ),
            old(self)@.sheets.len() < usize::MAX - 8,
            headers matches Some(h) ==> old(self)@.tables.has_room(h@.len() as int),
        ensures
            final(self).wf(),
            match r {
                Ok(_) => {
                    &&& column_count <= 16_384
                    &&& headers matches Some(h) ==> h@.len() == column_count
                    &&& old(self)@.open is None
                    &&& final(self)@ == old(self)@.with_started_sheet(
                        sheet_name@,
                        column_count as int,
                        crate::xlsx_cells::header_texts(headers),
                        options,
                        *numbers,
                    )
                },
                Err(e) => final(self)@ == old(self)@ && crate::xlsx_writer::start_refused(
                    column_count,
                    crate::xlsx_cells::header_texts(headers),
                    old(self)@.open is Some,
                    e,
                ),
            },
    {
        if column_count > EXCEL_MAX_COLUMNS {
            return Err(too_many_columns(column_count));
        }
        if let Some(h) = headers {
            if h.len() != column_count {
                return Err(
                    SpreadsheetError::RowLengthMismatch { expected: column_count, got: h.len() },
                );
            }
        }
        let do_filter = options.do_autofilter && headers.is_some();
        let ghost before = self@;
        match self.stream.try_begin(column_count, do_filter, BigBuffer::default()) {
            Ok(_) => {},
            Err(e) => return Err(e),
        }
        self.register_sheet(sheet_name, options.hidden);
        let ghost hs = crate::xlsx_cells::header_texts(headers);
        assert(crate::writer_helpers::width_values(self.stream.col_widths@)
            =~= crate::xlsx_writer::unknown_widths(column_count as int));
        match headers {
            Some(h) => apply_header_widths(&mut self.stream.col_widths, h, column_count),
            None => {},
        }
        match &options.sample_rows {
            Some(sample) => update_col_widths_from_rows(
                &mut self.stream.col_widths,
                sample,
                100,
                numbers,
            ),
            None => {},
        }
        let mut bytes = render_sheet_head(
            &self.templates,
            &self.stream.col_widths,
            headers.is_some(),
            self.sheet_list.len() == 1,
        );
        push_header_row(&mut self.tables, &mut bytes, headers, column_count);
        match self.stream.assert_streaming() {
            Ok(buffer) => {
                buffer.write(&bytes);
            },
            Err(e) => return Err(e),
        }
        if headers.is_some() {
            self.stream.row_num = 1;
        }
        proof {
            let target = before.with_started_sheet(
                sheet_name@,
                column_count as int,
                hs,
                options,
                *numbers,
            );
            assert(self@.open->0.bytes =~= target.open->0.bytes);
        }
        Ok(())
    }

    /// Writes one row of the open sheet. Where the formats of the row cannot all be
    /// registered, those of the cells before are, and their texts are shared, but
    /// nothing is written.
    pub fn write_row(&mut self, row: &[CellValue], numbers: &NumberTable) -> (r: SpreadsheetResult<()>)
        requires
            old(self).wf(),
            crate::formats::knows_row(*numbers, crate::formats::row_cells(row@)),
            old(self)@.tables.has_room(row@.len() as int),
            old(self)@.open matches Some(open) ==> open.rows < u32::MAX,
        ensures
            final(self).wf(),
            ({
                let line = crate::formats::row_cells(row@);
                match old(self)@.open {
                    Some(open) => if open.columns != row@.len() {
                        final(self)@ == old(self)@ && r == Err::<(), SpreadsheetError>(
                            SpreadsheetError::RowLengthMismatch {
                                expected: open.columns as usize,
                                got: row@.len() as usize,
                            },
                        )
                    } else if old(self)@.next_row(line, *numbers).complete {
                        r is Ok && final(self)@ == old(self)@.with_row(line, *numbers)
                    } else {
                        &&& r matches Err(e) && e.says("too many custom number formats for XLSB"@)
                        &&& final(self)@ == (XlsbBook {
                            tables: old(self)@.next_row(line, *numbers).tables,
                            ..old(self)@
                        })
                    },
                    None => {
                        &&& final(self)@ == old(self)@
                        &&& r matches Err(e) && if row@.len() == 0 {
                            e is NotStreaming
                        } else {
                            e == SpreadsheetError::RowLengthMismatch {
                                expected: 0,
                                got: row@.len() as usize,
                            }
                        }
                    },
                }
            }),
    {
        let expected: usize = self.stream.end_col - self.stream.start_col;
        if row.len() != expected {
            return Err(SpreadsheetError::RowLengthMismatch { expected, got: row.len() });
        }
        if !self.stream.is_streaming {
            return Err(SpreadsheetError::NotStreaming);
        }
        let row_num: u32 = self.stream.row_num;
        let mut bytes: Vec<u8> = Vec::new();
        let ghost before = self@;
        let ghost line = crate::formats::row_cells(row@);
        match push_row(&mut self.tables, &mut bytes, row, row_num, expected, numbers) {
            Ok(_) => {},
            Err(e) => return Err(e),
        }
        assert(bytes@ =~= before.next_row(line, *numbers).bytes);
        match self.stream.assert_streaming() {
            Ok(buffer) => {
                buffer.write(&bytes);
            },
            Err(e) => return Err(e),
        }
        self.stream.row_num = row_num + 1;
        Ok(())
    }

    /// Puts the filter on the last sheet, if it is to have one.
    fn set_filter(&mut self, filtered: bool, rows: u64, columns: usize)
        requires
            old(self)@.sheets.len() > 0,
            filtered ==> 0 < columns <= 16_384 && 0 < rows <= u32::MAX,
        ensures
            final(self).templates == old(self).templates,
            final(self).entries == old(self).entries,
            final(self).tables == old(self).tables,
            final(self).compression_level == old(self).compression_level,
            final(self).stream == old(self).stream,
            final(self)@ == old(self)@.with_filter(filtered, rows as int, columns as int),
            final(self).sheet_list@.len() == old(self).sheet_list@.len(),
    {
        let ghost before = self@;
        if filtered {
            self.autofilter_is_on = true;
            let last: usize = self.sheet_list.len() - 1;
            let name = self.sheet_list[last].name.clone();
            let hidden = self.sheet_list[last].hidden;
            let filter = FilterData {
                start_row: 0,
                end_row: (rows - 1) as u32,
                start_column: 0,
                end_column: (columns - 1) as u32,
            };
            self.sheet_list.set(last, BinSheetInfo { name, hidden, filter_data: Some(filter) });
            assert(self@.sheets =~= before.with_filter(
                filtered,
                rows as int,
                columns as int,
            ).sheets);
        }
    }

    /// Adds the bytes of the last sheet to the archive.
    fn add_part(&mut self, data: EntryData)
        ensures
            final(self).templates == old(self).templates,
            final(self).sheet_list == old(self).sheet_list,
            final(self).tables == old(self).tables,
            final(self).compression_level == old(self).compression_level,
            final(self).stream == old(self).stream,
            final(self)@ == old(self)@.with_part(data@),
    {
        let ghost before = self@;
        let mut name = "xl/worksheets/sheet".to_owned();
        push_decimal(&mut name, self.sheet_list.len() as i128);
        name.append(".bin");
        self.entries.push(Entry { name, data });
        assert(self@.entries =~= before.with_part(data@).entries);
    }

    /// Closes the open sheet and adds it to the archive.
    pub fn end_sheet(&mut self) -> (r: SpreadsheetResult<()>)
        requires
            old(self).wf(),
        ensures
            final(self).wf(),
            match r {
                Ok(_) => old(self)@.open is Some && final(self)@ == old(self)@.with_ended_sheet(),
                Err(e) => old(self)@.open is None && e is NotStreaming && final(self)@ == old(self)@,
            },
    {
        if !self.stream.is_streaming {
            return Err(SpreadsheetError::NotStreaming);
        }
        let ghost before = self@;
        let columns: usize = self.stream.end_col;
        let rows: u64 = self.stream.row_num as u64;
        let filtered = self.stream.do_autofilter && columns > 0 && rows > 0;
        let tail = render_sheet_tail(&self.templates, filtered, rows, columns);
        let chunks = match self.stream.assert_streaming() {
            Ok(buffer) => {
                buffer.write(&tail);
                buffer.chunks_drain()
            },
            Err(e) => return Err(e),
        };
        let data = EntryData::Chunks(chunks);
        self.stream.end();
        let ghost closed = XlsbBook { open: None, ..before };
        assert(self@ =~= closed);
        self.set_filter(filtered, rows, columns);
        self.add_part(data);
        Ok(())
    }

    /// Writes the last added sheet at once. Where the formats of the cells cannot
    /// all be registered, those of the cells before are, and their texts are
    /// shared, but no sheet is written.
    pub fn write_sheet(
        &mut self,
        rows: &Vec<Vec<CellValue>>,
        headers: Option<&[String]>,
        do_autofilter: bool,
        numbers: &NumberTable,
    ) -> (r: SpreadsheetResult<()>)
        requires
            old(self).wf(),
            crate::formats::knows_sheet(*numbers, crate::formats::sheet_cells(rows@)),
            rows@.len() < u32::MAX,
            old(self)@.tables.has_room(
                crate::xlsx_writer::cell_count(
                    rows@.len() as int,
                    crate::xlsx_writer::sheet_columns(
                        crate::formats::sheet_cells(rows@),
                        crate::xlsx_cells::header_texts(headers),
                    ),
                    crate::xlsx_cells::header_texts(headers),
                ),
            ),
        ensures
            final(self).wf(),
            ({
                let sheet = crate::formats::sheet_cells(rows@);
                let hs = crate::xlsx_cells::header_texts(headers);
                let columns = crate::xlsx_writer::sheet_columns(sheet, hs);
                let body = old(self)@.sheet_rows(columns, sheet, hs, *numbers);
                let is_open = old(self)@.open is Some;
                let count = old(self)@.sheets.len() as int;
                if is_open || count == 0 || columns > 16_384 || (hs matches Some(h) && h.len()
                    != columns) || crate::xlsx_writer::odd_row(sheet, columns, 0) is Some {
                    &&& final(self)@ == old(self)@
                    &&& r matches Err(e) && crate::xlsx_writer::write_refused(
                        sheet,
                        hs,
                        is_open,
                        count,
                        e,
                    )
                } else if body.complete {
                    r is Ok && final(self)@ == old(self)@.with_written_sheet(
                        columns,
                        sheet,
                        hs,
                        do_autofilter,
                        *numbers,
                    )
                } else {
                    &&& r matches Err(e) && e.says("too many custom number formats for XLSB"@)
                    &&& final(self)@ == (XlsbBook { tables: body.tables, ..old(self)@ })
                }
            }),
    {
        let ghost before = self@;
        let ghost sheet = crate::formats::sheet_cells(rows@);
        let ghost hs = crate::xlsx_cells::header_texts(headers);
        if self.stream.is_streaming {
            return Err(SpreadsheetError::AlreadyStreaming);
        }
        if self.sheet_list.len() == 0 {
            return Err(invalid("call add_sheet() before write_sheet()"));
        }
        let columns: usize = count_columns(rows, headers);
        if columns > EXCEL_MAX_COLUMNS {
            return Err(too_many_columns(columns));
        }
        if let Some(h) = headers {
            if h.len() != columns {
                return Err(
                    SpreadsheetError::RowLengthMismatch { expected: columns, got: h.len() },
                );
            }
        }
        match find_odd_row(rows, columns) {
            Some(got) => {
                return Err(SpreadsheetError::RowLengthMismatch { expected: columns, got });
            },
            None => {},
        }
        let mut widths = init_col_widths(columns);
        assert(crate::writer_helpers::width_values(widths@) =~= crate::xlsx_writer::unknown_widths(
            columns as int,
        ));
        match headers {
            Some(h) => apply_header_widths(&mut widths, h, columns),
            None => {},
        }
        update_col_widths_from_rows(&mut widths, rows, 100, numbers);
        let mut bytes = render_sheet_head(
            &self.templates,
            &widths,
            headers.is_some(),
            self.sheet_list.len() == 1,
        );
        let ghost head = bytes@;
        assert(rows@.len() * columns >= 0) by (nonlinear_arith);
        push_header_row(&mut self.tables, &mut bytes, headers, columns);
        let first: u32 = if headers.is_some() {
            1
        } else {
            0
        };
        let pushed = push_rows(&mut self.tables, &mut bytes, rows, first, columns, numbers);
        let ghost body = before.sheet_rows(columns as int, sheet, hs, *numbers);
        assert(bytes@ =~= head + body.bytes);
        assert(self@ =~= (XlsbBook { tables: body.tables, ..before }));
        match pushed {
            Ok(_) => {},
            Err(e) => return Err(e),
        }
        let filtered = do_autofilter && headers.is_some() && columns > 0;
        let total_rows: u64 = rows.len() as u64 + 1;
        let mut tail = render_sheet_tail(&self.templates, filtered, total_rows, columns);
        bytes.append(&mut tail);
        self.set_filter(filtered, total_rows, columns);
        self.add_part(EntryData::Bytes(bytes));
        Ok(())
    }
}

impl XlsbBook {
    /// The binary indexes of the first `n` sheets.
    pub open spec fn index_parts(self, n: nat) -> Seq<Part>
        decreases n,
    {
        if n == 0 {
            Seq::empty()
        } else {
            self.index_parts((n - 1) as nat).push(
                Part {
                    name: "xl/worksheets/binaryIndex"@ + crate::text::decimal(n as int) + ".bin"@,
                    bytes: self.templates.binary_index_bin,
                },
            )
        }
    }

    /// The relationships of the first `n` sheets.
    pub open spec fn rel_parts(self, n: nat) -> Seq<Part>
        decreases n,
    {
        if n == 0 {
            Seq::empty()
        } else {
            self.rel_parts((n - 1) as nat).push(
                crate::xlsx_writer::text_part(
                    "xl/worksheets/_rels/sheet"@ + crate::text::decimal(n as int) + ".bin.rels"@,
                    crate::xlsb_xml::sheet_part_rels(n as int),
                ),
            )
        }
    }

    /// All parts of the archive, in the order in which they are written.
    pub open spec fn archive(self) -> Seq<Part> {
        let n = self.sheets.len();
        self.entries + seq![
            Part {
                name: "xl/sharedStrings.bin"@,
                bytes: crate::xlsb_parts::shared_strings_bin(self.tables.strings, self.tables.uses),
            },
            Part {
                name: "xl/styles.bin"@,
                bytes: crate::xlsb_parts::styles_bin(
                    self.templates.styles_bin_base,
                    self.tables.formats,
                ),
            },
            Part {
                name: "xl/workbook.bin"@,
                bytes: crate::xlsb_parts::workbook_bin(
                    self.templates,
                    self.sheets,
                    self.autofilter_is_on,
                ),
            },
        ] + self.index_parts(n) + seq![
            crate::xlsx_writer::text_part(
                "[Content_Types].xml"@,
                crate::xlsb_xml::content_types_xml(n),
            ),
            crate::xlsx_writer::text_part(
                "xl/_rels/workbook.bin.rels"@,
                crate::xlsb_xml::workbook_rels(n),
            ),
            crate::xlsx_writer::text_part("_rels/.rels"@, crate::xlsb_xml::GLOBAL_RELS@),
        ] + self.rel_parts(n)
    }
}

fn bytes_entry(name: &str, bytes: Vec<u8>) -> (e: Entry)
    ensures
        e.name@ == name@,
        e.data@ == bytes@,
{
    Entry { name: name.to_owned(), data: EntryData::Bytes(bytes) }
}

fn push_entry(entries: &mut Vec<Entry>, entry: Entry)
    ensures
        crate::xlsx_writer::parts(final(entries)@) == crate::xlsx_writer::parts(
            old(entries)@,
        ).push(Part { name: entry.name@, bytes: entry.data@ }),
{
    let ghost before = crate::xlsx_writer::parts(entries@);
    entries.push(entry);
    assert(crate::xlsx_writer::parts(entries@) =~= before.push(
        Part { name: entry.name@, bytes: entry.data@ },
    ));
}

impl XlsbWriter {
    /// The parts of the finished archive, in order, and the compression level to
    /// write them with. The list of filtered sheets has room for 31.
    pub fn finalize(self) -> (r: SpreadsheetResult<(Vec<Entry>, i64)>)
        requires
            self.wf(),
            crate::xlsb_parts::filter_count(self@.sheets, self@.sheets.len()) <= 31,
        ensures
            match r {
                Ok((entries, level)) => {
                    &&& self@.open is None
                    &&& crate::xlsx_writer::parts(entries@) == self@.archive()
                    &&& level == self@.compression_level
                },
                Err(e) => self@.open is Some && e is StreamingSheetOpen,
            },
    {
        if self.stream.is_streaming {
            return Err(SpreadsheetError::StreamingSheetOpen);
        }
        let ghost book = self@;
        let sst = render_shared_strings(&self.tables.strings, self.tables.uses);
        let styles = render_styles(&self.templates.styles_bin_base, &self.tables.formats);
        let workbook = render_workbook(&self.templates, &self.sheet_list, self.autofilter_is_on);
        let n: usize = self.sheet_list.len();
        let content_types = render_content_types(n);
        let rels = render_workbook_rels(n);
        let level: i64 = self.compression_level;
        let index = self.templates.binary_index_bin;
        let mut entries = self.entries;
        let ghost given = crate::xlsx_writer::parts(entries@);
        push_entry(&mut entries, bytes_entry("xl/sharedStrings.bin", sst));
        push_entry(&mut entries, bytes_entry("xl/styles.bin", styles));
        push_entry(&mut entries, bytes_entry("xl/workbook.bin", workbook));
        let ghost p1 = crate::xlsx_writer::parts(entries@);
        assert(p1 + Seq::<Part>::empty() =~= p1);
        let mut i: usize = 0;
        while i < n
            invariant
                i <= n,
                index@ == book.templates.binary_index_bin,
                crate::xlsx_writer::parts(entries@) == p1 + book.index_parts(i as nat),
            decreases n - i,
        {
            let mut name = "xl/worksheets/binaryIndex".to_owned();
            push_decimal(&mut name, i as i128 + 1);
            name.append(".bin");
            let copy = vstd::slice::slice_to_vec(index.as_slice());
            push_entry(&mut entries, Entry { name, data: EntryData::Bytes(copy) });
            assert(crate::xlsx_writer::parts(entries@) =~= p1 + book.index_parts(i as nat + 1));
            i += 1;
        }
        push_entry(&mut entries, text_entry("[Content_Types].xml", content_types.as_str()));
        push_entry(&mut entries, text_entry("xl/_rels/workbook.bin.rels", rels.as_str()));
        push_entry(&mut entries, text_entry("_rels/.rels", GLOBAL_RELS));
        let ghost p2 = crate::xlsx_writer::parts(entries@);
        assert(p2 + Seq::<Part>::empty() =~= p2);
        let mut i: usize = 0;
        while i < n
            invariant
                i <= n,
                crate::xlsx_writer::parts(entries@) == p2 + book.rel_parts(i as nat),
            decreases n - i,
        {
            let mut name = "xl/worksheets/_rels/sheet".to_owned();
            push_decimal(&mut name, i as i128 + 1);
            name.append(".bin.rels");
            let text = render_sheet_part_rels(i + 1);
            push_entry(&mut entries, text_entry(name.as_str(), text.as_str()));
            assert(crate::xlsx_writer::parts(entries@) =~= p2 + book.rel_parts(i as nat + 1));
            i += 1;
        }
        assert(crate::xlsx_writer::parts(entries@) =~= book.archive());
        Ok((entries, level))
    }

    /// The number of sheets added so far.
    pub fn sheet_count(&self) -> (n: usize)
        ensures
            n == self@.sheets.len(),
    {
        self.sheet_list.len()
    }

    /// The name of a sheet, by its zero-based index.
    pub fn sheet_name(&self, index: usize) -> (r: Option<&str>)
        ensures
            match r {
                Some(name) => index < self@.sheets.len() && name@ == self@.sheets[index as int].name,
                None => index >= self@.sheets.len(),
            },
    {
        if index < self.sheet_list.len() {
            Some(self.sheet_list[index].name.as_str())
        } else {
            None
        }
    }

    /// The number of sheets with a filter.
    pub fn filter_count(&self) -> (n: usize)
        ensures
            n == crate::xlsb_parts::filter_count(self@.sheets, self@.sheets.len()),
    {
        count_filters(&self.sheet_list)
    }

    /// The number of rows of the open sheet, zero where none is open.
    pub fn open_rows(&self) -> (n: u32)
        requires
            self.wf(),
        ensures
            n == match self@.open {
                Some(open) => open.rows,
                None => 0,
            },
    {
        self.stream.row_num
    }

    /// Whether the counters have room for `n` more cells.
    pub fn has_room(&self, n: usize) -> (b: bool)
        ensures
            b == self@.tables.has_room(n as int),
    {
        n as u128 + self.tables.uses as u128 <= u64::MAX as u128 && n as u128
            + self.tables.formats.len() as u128 <= 0xffff_ff37
    }

    /// Writes a row header.
    pub fn create_row_header(
        &self,
        big_buf: &mut BigBuffer,
        row_number: u32,
        start_col: usize,
        end_col: usize,
    )
        requires
            old(big_buf)@.wf(),
        ensures
            final(big_buf)@.wf(),
            final(big_buf)@ == old(big_buf)@.with_room(27).adding(
                crate::xlsb_cells::row_header(row_number, start_col as int, end_col as int),
            ),
    {
        let mut bytes: Vec<u8> = Vec::new();
        push_row_header(&mut bytes, row_number, start_col, end_col);
        assert(bytes@ =~= crate::xlsb_cells::row_header(
            row_number,
            start_col as int,
            end_col as int,
        ));
        write_together(big_buf, &bytes, 27);
    }

    /// Writes a cell with a packed integer.
    pub fn write_rk_number_integer(
        &self,
        big_buf: &mut BigBuffer,
        val: i32,
        col_num: usize,
        style_num: u8,
    )
        requires
            old(big_buf)@.wf(),
        ensures
            final(big_buf)@.wf(),
            final(big_buf)@ == old(big_buf)@.with_room(14).adding(
                crate::xlsb_cells::rk_cell(val as int, col_num as int, style_num),
            ),
    {
        let mut bytes: Vec<u8> = Vec::new();
        push_rk(&mut bytes, val, col_num, style_num);
        assert(bytes@ =~= crate::xlsb_cells::rk_cell(val as int, col_num as int, style_num));
        write_together(big_buf, &bytes, 14);
    }

    /// Writes a cell with the double of the given bits.
    pub fn write_double(&self, big_buf: &mut BigBuffer, bits: u64, col_num: usize, style_num: u8)
        requires
            old(big_buf)@.wf(),
        ensures
            final(big_buf)@.wf(),
            final(big_buf)@ == old(big_buf)@.with_room(18).adding(
                crate::xlsb_cells::double_cell(bits, col_num as int, style_num),
            ),
    {
        let mut bytes: Vec<u8> = Vec::new();
        push_double(&mut bytes, bits, col_num, style_num);
        assert(bytes@ =~= crate::xlsb_cells::double_cell(bits, col_num as int, style_num));
        write_together(big_buf, &bytes, 18);
    }

    /// Writes a cell with a truth value.
    pub fn write_bool(&self, big_buf: &mut BigBuffer, val: bool, col_num: usize)
        requires
            old(big_buf)@.wf(),
        ensures
            final(big_buf)@.wf(),
            final(big_buf)@ == old(big_buf)@.with_room(13).adding(
                crate::xlsb_cells::bool_cell(val, col_num as int),
            ),
    {
        let mut bytes: Vec<u8> = Vec::new();
        push_bool(&mut bytes, val, col_num);
        assert(bytes@ =~= crate::xlsb_cells::bool_cell(val, col_num as int));
        write_together(big_buf, &bytes, 13);
    }

    /// Writes a cell with a date, given by the bits of its serial number.
    pub fn write_date_time(&self, big_buf: &mut BigBuffer, serial_bits: u64, col_num: usize)
        requires
            old(big_buf)@.wf(),
        ensures
            final(big_buf)@.wf(),
            final(big_buf)@ == old(big_buf)@.with_room(18).adding(
                crate::xlsb_cells::double_cell(serial_bits, col_num as int, 1),
            ),
    {
        self.write_double(big_buf, serial_bits, col_num, 1);
    }

    /// Writes a cell with a text, which is shared. Without a style of its own a
    /// bold cell has style 3, any other style 0.
    pub fn write_string(
        &mut self,
        big_buf: &mut BigBuffer,
        val: &str,
        col_num: usize,
        bolded: bool,
        style_override: Option<u8>,
    )
        requires
            old(self).wf(),
            old(self)@.tables.has_room(1),
            old(big_buf)@.wf(),
        ensures
            final(self).wf(),
            final(self)@ == (XlsbBook {
                tables: old(self)@.tables.with_string(val@),
                ..old(self)@
            }),
            final(big_buf)@.wf(),
            final(big_buf)@ == old(big_buf)@.with_room(17).adding(
                crate::xlsb_cells::sst_cell(
                    old(self)@.tables.string_index(val@),
                    col_num as int,
                    match style_override {
                        Some(style) => style,
                        None => if bolded {
                            3
                        } else {
                            0
                        },
                    },
                ),
            ),
    {
        let index: usize = self.tables.intern_string(val);
        let style: u8 = match style_override {
            Some(style) => style,
            None => if bolded {
                3
            } else {
                0
            },
        };
        let mut bytes: Vec<u8> = Vec::new();
        push_sst(&mut bytes, index, col_num, style);
        assert(bytes@ =~= crate::xlsb_cells::sst_cell(index as int, col_num as int, style));
        write_together(big_buf, &bytes, 17);
    }
}

/// Writes bytes into one chunk.
fn write_together(big_buf: &mut BigBuffer, bytes: &Vec<u8>, room: usize)
    requires
        old(big_buf)@.wf(),
        bytes@.len() <= room,
    ensures
        final(big_buf)@.wf(),
        final(big_buf)@ == old(big_buf)@.with_room(room as int).adding(bytes@),
{
    big_buf.ensure_capacity(room);
    proof {
        crate::big_buffer::lemma_spreading_fits(big_buf@, bytes@);
    }
    big_buf.write(bytes);
}

} // verus!
