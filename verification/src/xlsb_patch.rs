//! Patching the binary parts of an XLSB workbook in place: worksheets, shared
//! strings and pivot caches.

use vstd::prelude::*;
use crate::biff12::{
    append_bytes, build_record, read_record, read_u32_le, read_utf16, Biff12Record,
};
use crate::big_buffer::push_u32_le;
use crate::error::{invalid, SpreadsheetResult};
use crate::text::{chars_of, eq_str};
use crate::utf16::utf16_units;
use crate::xlsb_reader::is_date_num_fmt;
use crate::xlsx_styles::ExistingStyles;

verus! {

/// The bytes with those from `start` to `end` replaced.
pub open spec fn spliced_bytes(s: Seq<u8>, start: int, end: int, new: Seq<u8>) -> Seq<u8> {
    s.take(start) + new + s.skip(end)
}

/// The bytes with those from `start` to `end` replaced.
pub fn splice_bytes(s: &[u8], start: usize, end: usize, new: &[u8]) -> (r: Vec<u8>)
    requires
        start <= end <= s.len(),
    ensures
        r@ == spliced_bytes(s@, start as int, end as int, new@),
{
    let mut r = vstd::slice::slice_to_vec(vstd::slice::slice_subrange(s, 0, start));
    append_bytes(&mut r, new);
    append_bytes(&mut r, vstd::slice::slice_subrange(s, end, s.len()));
    assert(r@ =~= spliced_bytes(s@, start as int, end as int, new@));
    r
}

/// The bytes with a 32-bit number written over those at an offset.
pub open spec fn with_u32(s: Seq<u8>, at: int, n: u32) -> Seq<u8> {
    spliced_bytes(s, at, at + 4, crate::big_buffer::le32(n))
}

/// Writes a 32-bit number over the bytes at an offset.
pub fn write_u32_le_at(buf: &mut Vec<u8>, at: usize, n: u32)
    requires
        at + 4 <= old(buf).len(),
    ensures
        final(buf)@ == with_u32(old(buf)@, at as int, n),
        final(buf)@.len() == old(buf)@.len(),
{
    let ghost before = buf@;
    buf[at] = (n % 256) as u8;
    buf[at + 1] = (n / 0x100 % 256) as u8;
    buf[at + 2] = (n / 0x1_0000 % 256) as u8;
    buf[at + 3] = (n / 0x100_0000) as u8;
    assert(buf@ =~= with_u32(before, at as int, n));
}

/// How many cells from `pos` on point at a shared string, added to those already
/// counted.
pub open spec fn string_refs(buf: Seq<u8>, pos: int, count: int) -> Result<int, Seq<char>>
    decreases buf.len() - pos,
    when 0 <= pos <= buf.len() <= usize::MAX
{
    proof {
        crate::biff12::lemma_record_bounds(buf, pos);
    }
    match crate::biff12::record_at(buf, pos) {
        Err(message) => Err(message),
        Ok(None) => Ok(count),
        Ok(Some(rec)) => string_refs(
            buf,
            rec.data_end as int,
            if rec.id == 7 {
                count + 1
            } else {
                count
            },
        ),
    }
}

/// Counts the cells of a worksheet that point at a shared string.
pub fn shared_string_ref_count(sheet_buf: &[u8]) -> (r: SpreadsheetResult<usize>)
    ensures
        match r {
            Ok(count) => string_refs(sheet_buf@, 0, 0) == Ok::<int, Seq<char>>(count as int),
            Err(e) => string_refs(sheet_buf@, 0, 0) matches Err(message) && e.says(message),
        },
{
    let mut rec = Biff12Record::default();
    let mut pos: usize = 0;
    let mut count: usize = 0;
    loop
        invariant
            pos <= sheet_buf.len(),
            count <= pos,
            string_refs(sheet_buf@, 0, 0) == string_refs(sheet_buf@, pos as int, count as int),
        decreases sheet_buf.len() - pos,
    {
        proof {
            crate::biff12::lemma_record_bounds(sheet_buf@, pos as int);
        }
        match read_record(sheet_buf, pos, &mut rec) {
            Err(e) => return Err(e),
            Ok(false) => return Ok(count),
            Ok(true) => {},
        }
        if rec.id == 7 {
            count += 1;
        }
        pos = rec.data_end;
    }
}

/// The message for a row header without a row.
pub open spec fn row_truncated() -> Seq<char> {
    "XlsbUpdater: row header is truncated"@
}

/// The cells with a style from `pos` on, behind those already met, when the row at
/// hand is the first one or not. Cells of the first row are in row one, all others
/// in row zero.
pub open spec fn styled_cells(
    buf: Seq<u8>,
    pos: int,
    first: bool,
    cells: Seq<crate::xlsx_styles::StyledCell>,
) -> Result<Seq<crate::xlsx_styles::StyledCell>, Seq<char>>
    decreases buf.len() - pos,
    when 0 <= pos <= buf.len() <= usize::MAX
{
    proof {
        crate::biff12::lemma_record_bounds(buf, pos);
    }
    match crate::biff12::record_at(buf, pos) {
        Err(message) => Err(message),
        Ok(None) => Ok(cells),
        Ok(Some(rec)) => {
            let next = rec.data_end as int;
            let start = rec.data_start as int;
            if rec.id == 0 {
                if start + 4 > buf.len() {
                    Err(row_truncated())
                } else {
                    styled_cells(buf, next, crate::biff12::le_u32_at(buf, start) == 0, cells)
                }
            } else if rec.id > 11 || rec.len < 8 {
                styled_cells(buf, next, first, cells)
            } else {
                let style = crate::biff12::le_u32_at(buf, start + 4) % 0x100_0000;
                styled_cells(
                    buf,
                    next,
                    first,
                    if style == 0 {
                        cells
                    } else {
                        cells.push(
                            crate::xlsx_styles::StyledCell {
                                col: crate::biff12::le_u32_at(buf, start),
                                row: if first {
                                    1
                                } else {
                                    0
                                },
                                style,
                            },
                        )
                    },
                )
            }
        },
    }
}

/// Collects the styles that the cells of a worksheet have.
pub fn collect_styles(sheet_buf: &[u8]) -> (r: SpreadsheetResult<ExistingStyles>)
    ensures
        match r {
            Ok(styles) => styles.wf() && styled_cells(sheet_buf@, 0, false, Seq::empty()) == Ok::<
                Seq<crate::xlsx_styles::StyledCell>,
                Seq<char>,
            >(styles@),
            Err(e) => styled_cells(sheet_buf@, 0, false, Seq::empty()) matches Err(message)
                && e.says(message),
        },
{
    let mut styles = ExistingStyles::new();
    let mut rec = Biff12Record::default();
    let mut pos: usize = 0;
    let mut first = false;
    loop
        invariant
            pos <= sheet_buf.len(),
            styles.wf(),
            styles@.len() <= pos,
            styled_cells(sheet_buf@, 0, false, Seq::empty()) == styled_cells(
                sheet_buf@,
                pos as int,
                first,
                styles@,
            ),
        decreases sheet_buf.len() - pos,
    {
        proof {
            crate::biff12::lemma_record_bounds(sheet_buf@, pos as int);
        }
        match read_record(sheet_buf, pos, &mut rec) {
            Err(e) => return Err(e),
            Ok(false) => return Ok(styles),
            Ok(true) => {},
        }
        pos = rec.data_end;
        if rec.id == 0 {
            if sheet_buf.len() - rec.data_start < 4 {
                return Err(invalid("XlsbUpdater: row header is truncated"));
            }
            first = read_u32_le(sheet_buf, rec.data_start) == 0;
        } else if rec.id <= 11 && rec.len >= 8 {
            let col: u32 = read_u32_le(sheet_buf, rec.data_start);
            let style: u32 = read_u32_le(sheet_buf, rec.data_start + 4) % 0x100_0000;
            if style != 0 {
                styles.note(
                    col as usize,
                    if first {
                        1
                    } else {
                        0
                    },
                    style as usize,
                );
            }
        }
    }
}

/// What the records of a worksheet say of its rows: where the first row starts,
/// where the last cell ends, where the last short mark (0x25) starts, and where
/// the filter ranges are.
#[verifier::ext_equal]
pub struct RowMarks {
    pub first_row: Option<int>,
    pub cell_end: Option<int>,
    pub mark: Option<int>,
    pub filters: Seq<int>,
}

/// What one record adds.
pub open spec fn with_record(marks: RowMarks, rec: Biff12Record) -> RowMarks {
    if rec.id == 0 {
        RowMarks {
            first_row: match marks.first_row {
                Some(start) => Some(start),
                None => Some(rec.header_start as int),
            },
            ..marks
        }
    } else if rec.id <= 11 {
        RowMarks { cell_end: Some(rec.data_end as int), ..marks }
    } else if rec.id == 0x25 && rec.len == 6 {
        RowMarks { mark: Some(rec.header_start as int), ..marks }
    } else if rec.id == 0xa1 && rec.len >= 16 {
        RowMarks { filters: marks.filters.push(rec.data_start as int), ..marks }
    } else {
        marks
    }
}

pub open spec fn no_marks() -> RowMarks {
    RowMarks { first_row: None, cell_end: None, mark: None, filters: Seq::empty() }
}

/// What the records from `pos` on add.
pub open spec fn row_marks(buf: Seq<u8>, pos: int, marks: RowMarks) -> Result<RowMarks, Seq<char>>
    decreases buf.len() - pos,
    when 0 <= pos <= buf.len() <= usize::MAX
{
    proof {
        crate::biff12::lemma_record_bounds(buf, pos);
    }
    match crate::biff12::record_at(buf, pos) {
        Err(message) => Err(message),
        Ok(None) => Ok(marks),
        Ok(Some(rec)) => row_marks(buf, rec.data_end as int, with_record(marks, rec)),
    }
}

/// The rows of a worksheet: where they start and end, and where the filter ranges
/// are.
#[verifier::ext_equal]
pub struct Region {
    pub start: int,
    pub end: int,
    pub filters: Seq<int>,
}

pub open spec fn optional_or(a: Option<int>, b: int) -> int {
    match a {
        Some(n) => n,
        None => b,
    }
}

/// The message for rows that end in front of their start.
pub open spec fn rows_misplaced() -> Seq<char> {
    "XlsbUpdater: worksheet rows end before they start"@
}

/// The rows of a worksheet. The records behind the last cell stay. A worksheet
/// without rows gets its rows in front of its last mark, or at its end.
pub open spec fn rows_region(buf: Seq<u8>) -> Result<Region, Seq<char>> {
    match row_marks(buf, 0, no_marks()) {
        Err(message) => Err(message),
        Ok(marks) => {
            let without_cells = optional_or(marks.mark, buf.len() as int);
            match marks.first_row {
                None => Ok(
                    Region { start: without_cells, end: without_cells, filters: marks.filters },
                ),
                Some(start) => {
                    let end = optional_or(marks.cell_end, without_cells);
                    if end < start {
                        Err(rows_misplaced())
                    } else {
                        Ok(Region { start, end, filters: marks.filters })
                    }
                },
            }
        },
    }
}

/// What the records say of the rows lies inside the worksheet.
spec fn are_inside(marks: RowMarks, buf: Seq<u8>) -> bool {
    &&& marks.first_row matches Some(n) ==> 0 <= n <= buf.len()
    &&& marks.cell_end matches Some(n) ==> 0 <= n <= buf.len()
    &&& marks.mark matches Some(n) ==> 0 <= n <= buf.len()
    &&& forall|k: int|
        0 <= k < marks.filters.len() ==> 0 <= #[trigger] marks.filters[k] && marks.filters[k] + 16
            <= buf.len()
}

proof fn lemma_marks_inside(buf: Seq<u8>, pos: int, marks: RowMarks)
    requires
        0 <= pos <= buf.len() <= usize::MAX,
        are_inside(marks, buf),
    ensures
        row_marks(buf, pos, marks) matches Ok(all) ==> are_inside(all, buf),
    decreases buf.len() - pos,
{
    crate::biff12::lemma_record_bounds(buf, pos);
    if let Ok(Some(rec)) = crate::biff12::record_at(buf, pos) {
        lemma_marks_inside(buf, rec.data_end as int, with_record(marks, rec));
    }
}

/// The rows and the filter ranges lie inside the worksheet.
pub proof fn lemma_region_inside(buf: Seq<u8>)
    requires
        buf.len() <= usize::MAX,
    ensures
        rows_region(buf) matches Ok(region) ==> {
            &&& 0 <= region.start <= region.end <= buf.len()
            &&& forall|k: int|
                0 <= k < region.filters.len() ==> 0 <= #[trigger] region.filters[k]
                    && region.filters[k] + 16 <= buf.len()
        },
{
    lemma_marks_inside(buf, 0, no_marks());
}

/// The rows of a worksheet.
pub struct RowsRegion {
    pub rows_start: usize,
    pub rows_end: usize,
    pub auto_filter_ranges: Vec<usize>,
}

/// The offsets of a list.
pub open spec fn offsets(list: Seq<usize>) -> Seq<int> {
    Seq::new(list.len(), |i: int| list[i] as int)
}

impl View for RowsRegion {
    type V = Region;

    open spec fn view(&self) -> Region {
        Region {
            start: self.rows_start as int,
            end: self.rows_end as int,
            filters: offsets(self.auto_filter_ranges@),
        }
    }
}

pub open spec fn some_int(n: Option<usize>) -> Option<int> {
    match n {
        Some(n) => Some(n as int),
        None => None,
    }
}

/// Finds the rows of a worksheet.
pub fn find_rows_region(sheet_buf: &[u8]) -> (r: SpreadsheetResult<RowsRegion>)
    ensures
        match r {
            Ok(region) => {
                &&& rows_region(sheet_buf@) == Ok::<Region, Seq<char>>(region@)
                &&& region.rows_start <= region.rows_end <= sheet_buf.len()
                &&& forall|i: int|
                    0 <= i < region.auto_filter_ranges@.len()
                        ==> #[trigger] region.auto_filter_ranges@[i] + 16 <= sheet_buf.len()
            },
            Err(e) => rows_region(sheet_buf@) matches Err(message) && e.says(message),
        },
{
    let mut filters: Vec<usize> = Vec::new();
    let mut first_row: Option<usize> = None;
    let mut cell_end: Option<usize> = None;
    let mut mark: Option<usize> = None;
    let mut rec = Biff12Record::default();
    let mut pos: usize = 0;
    assert(offsets(filters@) =~= Seq::<int>::empty());
    loop
        invariant_except_break
            pos <= sheet_buf.len(),
            row_marks(sheet_buf@, 0, no_marks()) == row_marks(
                sheet_buf@,
                pos as int,
                (RowMarks {
                    first_row: some_int(first_row),
                    cell_end: some_int(cell_end),
                    mark: some_int(mark),
                    filters: offsets(filters@),
                }),
            ),
        invariant
            forall|i: int|
                0 <= i < filters@.len() ==> #[trigger] filters@[i] + 16 <= sheet_buf.len(),
            first_row matches Some(n) ==> n <= sheet_buf.len(),
            cell_end matches Some(n) ==> n <= sheet_buf.len(),
            mark matches Some(n) ==> n <= sheet_buf.len(),
        ensures
            row_marks(sheet_buf@, 0, no_marks()) == Ok::<RowMarks, Seq<char>>(
                RowMarks {
                    first_row: some_int(first_row),
                    cell_end: some_int(cell_end),
                    mark: some_int(mark),
                    filters: offsets(filters@),
                },
            ),
        decreases sheet_buf.len() - pos,
    {
        let ghost before = RowMarks {
            first_row: some_int(first_row),
            cell_end: some_int(cell_end),
            mark: some_int(mark),
            filters: offsets(filters@),
        };
        proof {
            crate::biff12::lemma_record_bounds(sheet_buf@, pos as int);
        }
        match read_record(sheet_buf, pos, &mut rec) {
            Err(e) => return Err(e),
            Ok(false) => {
                break;
            },
            Ok(true) => {},
        }
        if rec.id == 0 {
            if first_row.is_none() {
                first_row = Some(rec.header_start);
            }
        } else if rec.id <= 11 {
            cell_end = Some(rec.data_end);
        } else if rec.id == 0x25 && rec.len == 6 {
            mark = Some(rec.header_start);
        } else if rec.id == 0x00a1 && rec.len >= 16 {
            let ghost earlier = filters@;
            filters.push(rec.data_start);
            assert(offsets(filters@) =~= offsets(earlier).push(rec.data_start as int));
        }
        assert(with_record(before, rec) =~= (RowMarks {
            first_row: some_int(first_row),
            cell_end: some_int(cell_end),
            mark: some_int(mark),
            filters: offsets(filters@),
        }));
        pos = rec.data_end;
    }
    let without_cells: usize = match mark {
        Some(at) => at,
        None => sheet_buf.len(),
    };
    match first_row {
        None => Ok(
            RowsRegion {
                rows_start: without_cells,
                rows_end: without_cells,
                auto_filter_ranges: filters,
            },
        ),
        Some(start) => {
            let end: usize = match cell_end {
                Some(end) => end,
                None => without_cells,
            };
            if end < start {
                return Err(invalid("XlsbUpdater: worksheet rows end before they start"));
            }
            Ok(RowsRegion { rows_start: start, rows_end: end, auto_filter_ranges: filters })
        },
    }
}

/// The message for a filter range outside the worksheet.
pub open spec fn filter_out_of_range() -> Seq<char> {
    "XlsbUpdater: autofilter patch out of range"@
}

/// Where an offset of a worksheet is found once its rows have been replaced: behind
/// the rows everything moves.
pub open spec fn moved_offset(at: int, region: Region, rows_len: int) -> int {
    if at >= region.end {
        at + rows_len - (region.end - region.start)
    } else {
        at
    }
}

/// How far new rows of the given length move what stands behind the old ones.
pub open spec fn distance(region: Region, rows_len: int) -> int {
    rows_len - (region.end - region.start)
}

/// The worksheet with new rows of the given length and with the first `n` of its
/// filter ranges set to end at a row and a column. The filter ranges are taken to
/// have moved with what stands behind the rows.
pub open spec fn with_filters(
    buf: Seq<u8>,
    region: Region,
    n: nat,
    rows_len: int,
    last_row: u32,
    last_col: u32,
) -> Result<Seq<u8>, Seq<char>>
    decreases n,
{
    if n == 0 {
        Ok(buf)
    } else {
        let at = region.filters[n - 1] + distance(region, rows_len);
        match with_filters(buf, region, (n - 1) as nat, rows_len, last_row, last_col) {
            Err(message) => Err(message),
            Ok(s) => if at < 0 || at + 16 > s.len() {
                Err(filter_out_of_range())
            } else {
                Ok(with_u32(with_u32(s, at + 12, last_col), at + 4, last_row))
            },
        }
    }
}

/// The place of the dimension: where the payload of the first dimension record
/// (0x98) from `pos` on starts.
pub open spec fn dimension_at(buf: Seq<u8>, pos: int) -> Result<Option<int>, Seq<char>>
    decreases buf.len() - pos,
    when 0 <= pos <= buf.len() <= usize::MAX
{
    proof {
        crate::biff12::lemma_record_bounds(buf, pos);
    }
    match crate::biff12::record_at(buf, pos) {
        Err(message) => Err(message),
        Ok(None) => Ok(None),
        Ok(Some(rec)) => if rec.id == 0x98 && rec.len >= 36 {
            Ok(Some(rec.data_start as int))
        } else {
            dimension_at(buf, rec.data_end as int)
        },
    }
}

/// The worksheet with its dimension set to end at a row and a column.
pub open spec fn with_dimension(buf: Seq<u8>, last_row: u32, last_col: u32) -> Result<
    Seq<u8>,
    Seq<char>,
> {
    match dimension_at(buf, 0) {
        Err(message) => Err(message),
        Ok(None) => Ok(buf),
        Ok(Some(at)) => Ok(with_u32(with_u32(buf, at + 24, last_row), at + 32, last_col)),
    }
}

/// The worksheet with new rows, and with its filter ranges and its dimension in
/// step with them.
pub open spec fn patched_sheet(buf: Seq<u8>, rows: Seq<u8>, last_row: u32, last_col: u32) -> Result<
    Seq<u8>,
    Seq<char>,
> {
    match rows_region(buf) {
        Err(message) => Err(message),
        Ok(region) => {
            let spliced = spliced_bytes(buf, region.start, region.end, rows);
            match with_filters(
                spliced,
                region,
                region.filters.len(),
                rows.len() as int,
                last_row,
                last_col,
            ) {
                Err(message) => Err(message),
                Ok(filtered) => with_dimension(filtered, last_row, last_col),
            }
        },
    }
}

/// The place of the dimension.
fn find_dimension(buf: &[u8]) -> (r: SpreadsheetResult<Option<usize>>)
    ensures
        match r {
            Ok(Some(at)) => dimension_at(buf@, 0) == Ok::<Option<int>, Seq<char>>(Some(at as int))
                && at + 36 <= buf.len(),
            Ok(None) => dimension_at(buf@, 0) == Ok::<Option<int>, Seq<char>>(None),
            Err(e) => dimension_at(buf@, 0) matches Err(message) && e.says(message),
        },
{
    let mut rec = Biff12Record::default();
    let mut pos: usize = 0;
    loop
        invariant
            pos <= buf.len(),
            dimension_at(buf@, 0) == dimension_at(buf@, pos as int),
        decreases buf.len() - pos,
    {
        proof {
            crate::biff12::lemma_record_bounds(buf@, pos as int);
        }
        match read_record(buf, pos, &mut rec) {
            Err(e) => return Err(e),
            Ok(false) => return Ok(None),
            Ok(true) => {},
        }
        if rec.id == 0x0098 && rec.len >= 36 {
            return Ok(Some(rec.data_start));
        }
        pos = rec.data_end;
    }
}

/// Replaces the rows of a worksheet, and sets its filter ranges and its dimension.
pub fn patch_sheet(sheet_buf: &[u8], rows: &[u8], last_row: u32, last_col: u32) -> (r:
    SpreadsheetResult<Vec<u8>>)
    ensures
        match r {
            Ok(bytes) => patched_sheet(sheet_buf@, rows@, last_row, last_col) == Ok::<
                Seq<u8>,
                Seq<char>,
            >(bytes@),
            Err(e) => patched_sheet(sheet_buf@, rows@, last_row, last_col) matches Err(message)
                && e.says(message),
        },
{
    let region = match find_rows_region(sheet_buf) {
        Ok(region) => region,
        Err(e) => return Err(e),
    };
    let mut new_sheet = splice_bytes(sheet_buf, region.rows_start, region.rows_end, rows);
    let ghost spliced = new_sheet@;
    let ghost filters = offsets(region.auto_filter_ranges@);
    let removed: usize = region.rows_end - region.rows_start;
    let mut i: usize = 0;
    while i < region.auto_filter_ranges.len()
        invariant
            i <= region.auto_filter_ranges.len(),
            filters == offsets(region.auto_filter_ranges@),
            region@.filters == filters,
            region.rows_start <= region.rows_end,
            removed == region.rows_end - region.rows_start,
            rows_region(sheet_buf@) == Ok::<Region, Seq<char>>(region@),
            spliced == spliced_bytes(sheet_buf@, region@.start, region@.end, rows@),
            with_filters(
                spliced,
                region@,
                i as nat,
                rows@.len() as int,
                last_row,
                last_col,
            ) == Ok::<Seq<u8>, Seq<char>>(new_sheet@),
        decreases region.auto_filter_ranges.len() - i,
    {
        let at: i128 = region.auto_filter_ranges[i] as i128 + rows.len() as i128 - removed as i128;
        assert(filters[i as int] + distance(region@, rows@.len() as int) == at);
        if at < 0 || at + 16 > new_sheet.len() as i128 {
            proof {
                lemma_filters_stay(
                    spliced,
                    region@,
                    (i + 1) as nat,
                    rows@.len() as int,
                    last_row,
                    last_col,
                );
            }
            return Err(invalid("XlsbUpdater: autofilter patch out of range"));
        }
        let at: usize = at as usize;
        write_u32_le_at(&mut new_sheet, at + 12, last_col);
        write_u32_le_at(&mut new_sheet, at + 4, last_row);
        i += 1;
    }
    match find_dimension(new_sheet.as_slice()) {
        Err(e) => Err(e),
        Ok(None) => Ok(new_sheet),
        Ok(Some(at)) => {
            write_u32_le_at(&mut new_sheet, at + 24, last_row);
            write_u32_le_at(&mut new_sheet, at + 32, last_col);
            Ok(new_sheet)
        },
    }
}

/// Filter ranges that could not be set stay so.
proof fn lemma_filters_stay(
    buf: Seq<u8>,
    region: Region,
    n: nat,
    rows_len: int,
    last_row: u32,
    last_col: u32,
)
    requires
        n <= region.filters.len(),
        with_filters(buf, region, n, rows_len, last_row, last_col) is Err,
    ensures
        with_filters(buf, region, region.filters.len(), rows_len, last_row, last_col)
            == with_filters(
            buf,
            region,
            n,
            rows_len,
            last_row,
            last_col,
        ),
    decreases region.filters.len() - n,
{
    if n < region.filters.len() {
        lemma_filters_stay(buf, region, n + 1, rows_len, last_row, last_col);
    }
}

/// A number to be written over the bytes at an offset of a file.
pub struct Overwrite {
    pub offset: u64,
    pub value: u32,
}

/// What an overwrite stands for.
pub struct Overwritten {
    pub offset: int,
    pub value: u32,
}

pub open spec fn overwrites(list: Seq<Overwrite>) -> Seq<Overwritten> {
    Seq::new(
        list.len(),
        |i: int| Overwritten { offset: list[i].offset as int, value: list[i].value },
    )
}

/// What is written over the first `n` filter ranges.
pub open spec fn filter_overwrites(
    region: Region,
    n: nat,
    rows_len: int,
    last_row: u32,
    last_col: u32,
) -> Seq<Overwritten>
    decreases n,
{
    if n == 0 {
        Seq::empty()
    } else {
        let at = moved_offset(region.filters[n - 1], region, rows_len);
        filter_overwrites(region, (n - 1) as nat, rows_len, last_row, last_col).push(
            Overwritten { offset: at + 4, value: last_row },
        ).push(Overwritten { offset: at + 12, value: last_col })
    }
}

/// What is written over a worksheet whose new rows stand in a file: its filter
/// ranges and its dimension.
pub open spec fn sheet_overwrites(
    buf: Seq<u8>,
    region: Region,
    rows_len: int,
    last_row: u32,
    last_col: u32,
) -> Result<Seq<Overwritten>, Seq<char>> {
    let filters = filter_overwrites(region, region.filters.len(), rows_len, last_row, last_col);
    match dimension_at(buf, 0) {
        Err(message) => Err(message),
        Ok(None) => Ok(filters),
        Ok(Some(start)) => {
            let at = moved_offset(start, region, rows_len);
            Ok(
                filters.push(Overwritten { offset: at + 24, value: last_row }).push(
                    Overwritten { offset: at + 32, value: last_col },
                ),
            )
        },
    }
}

fn move_offset(at: usize, region: &RowsRegion, rows_len: u64) -> (r: u64)
    requires
        region.rows_start <= region.rows_end,
        at + rows_len <= u64::MAX,
    ensures
        r == moved_offset(at as int, region@, rows_len as int),
        r <= at + rows_len,
{
    if at >= region.rows_end {
        at as u64 - (region.rows_end - region.rows_start) as u64 + rows_len
    } else {
        at as u64
    }
}

/// What is to be written over a worksheet whose new rows stand in a file.
pub fn plan_overwrites(
    sheet_buf: &[u8],
    region: &RowsRegion,
    rows_len: u64,
    last_row: u32,
    last_col: u32,
) -> (r: SpreadsheetResult<Vec<Overwrite>>)
    requires
        region.rows_start <= region.rows_end,
        sheet_buf.len() + rows_len <= u64::MAX,
        forall|i: int|
            0 <= i < region.auto_filter_ranges@.len()
                ==> #[trigger] region.auto_filter_ranges@[i] + 16 <= sheet_buf.len(),
    ensures
        match r {
            Ok(list) => sheet_overwrites(
                sheet_buf@,
                region@,
                rows_len as int,
                last_row,
                last_col,
            ) == Ok::<Seq<Overwritten>, Seq<char>>(overwrites(list@)),
            Err(e) => sheet_overwrites(
                sheet_buf@,
                region@,
                rows_len as int,
                last_row,
                last_col,
            ) matches Err(message) && e.says(message),
        },
{
    let mut list: Vec<Overwrite> = Vec::new();
    let mut i: usize = 0;
    assert(overwrites(list@) =~= Seq::<Overwritten>::empty());
    while i < region.auto_filter_ranges.len()
        invariant
            i <= region.auto_filter_ranges.len(),
            region.rows_start <= region.rows_end,
            sheet_buf.len() + rows_len <= u64::MAX,
            forall|k: int|
                0 <= k < region.auto_filter_ranges@.len()
                    ==> #[trigger] region.auto_filter_ranges@[k] + 16 <= sheet_buf.len(),
            overwrites(list@) == filter_overwrites(
                region@,
                i as nat,
                rows_len as int,
                last_row,
                last_col,
            ),
        decreases region.auto_filter_ranges.len() - i,
    {
        let ghost earlier = overwrites(list@);
        assert(region.auto_filter_ranges@[i as int] + 16 <= sheet_buf.len());
        let at: u64 = move_offset(region.auto_filter_ranges[i], region, rows_len);
        list.push(Overwrite { offset: at + 4, value: last_row });
        list.push(Overwrite { offset: at + 12, value: last_col });
        assert(overwrites(list@) =~= earlier.push(
            Overwritten { offset: at + 4, value: last_row },
        ).push(Overwritten { offset: at + 12, value: last_col }));
        i += 1;
    }
    match find_dimension(sheet_buf) {
        Err(e) => Err(e),
        Ok(None) => Ok(list),
        Ok(Some(start)) => {
            let ghost earlier = overwrites(list@);
            let at: u64 = move_offset(start, region, rows_len);
            list.push(Overwrite { offset: at + 24, value: last_row });
            list.push(Overwrite { offset: at + 32, value: last_col });
            assert(overwrites(list@) =~= earlier.push(
                Overwritten { offset: at + 24, value: last_row },
            ).push(Overwritten { offset: at + 32, value: last_col }));
            Ok(list)
        },
    }
}

/// The payload of an item of the shared strings: no formatting, the number of its
/// UTF-16 units, the units.
pub open spec fn string_payload(text: Seq<char>) -> Seq<u8> {
    let units = crate::utf16::encode_units(text);
    seq![0u8] + crate::big_buffer::le32(crate::xlsb_cells::low32(units.len() as int))
        + crate::utf16::le_bytes(units)
}

/// The items of shared strings from `n` texts on.
pub open spec fn string_items(texts: Seq<Seq<char>>, from: int, to: int) -> Seq<u8>
    decreases to - from,
{
    if from >= to {
        Seq::empty()
    } else {
        string_items(texts, from, to - 1) + crate::biff12::record(
            0x13,
            string_payload(texts[to - 1]),
        )
    }
}

/// Appends the number of the UTF-16 units of a text and the units.
pub fn push_counted_units(out: &mut Vec<u8>, text: &str)
    ensures
        final(out)@ == old(out)@ + crate::big_buffer::le32(
            crate::xlsb_cells::low32(crate::utf16::encode_units(text@).len() as int),
        ) + crate::utf16::le_bytes(crate::utf16::encode_units(text@)),
{
    let ghost before = out@;
    let chars = chars_of(text);
    let units = utf16_units(&chars);
    push_u32_le(out, crate::xlsb_cells::to_low32(units.len() as u64));
    let ghost counted = out@;
    let mut i: usize = 0;
    assert(counted + crate::utf16::le_bytes(units@.take(0)) =~= counted);
    while i < units.len()
        invariant
            i <= units.len(),
            out@ == counted + crate::utf16::le_bytes(units@.take(i as int)),
        decreases units.len() - i,
    {
        out.push((units[i] % 256) as u8);
        out.push((units[i] / 256) as u8);
        assert(out@ =~= counted + crate::utf16::le_bytes(units@.take(i as int + 1)));
        i += 1;
    }
    assert(units@.take(i as int) =~= units@);
    assert(out@ =~= before + crate::big_buffer::le32(
        crate::xlsb_cells::low32(crate::utf16::encode_units(text@).len() as int),
    ) + crate::utf16::le_bytes(crate::utf16::encode_units(text@)));
}

/// Appends an item of the shared strings.
pub fn push_string_item(out: &mut Vec<u8>, text: &str)
    ensures
        final(out)@ == old(out)@ + crate::biff12::record(0x13, string_payload(text@)),
{
    let mut payload: Vec<u8> = Vec::new();
    payload.push(0);
    push_counted_units(&mut payload, text);
    assert(payload@ =~= string_payload(text@));
    let record = build_record(0x13, &payload);
    append_bytes(out, &record);
}

/// The message for a header of the shared strings that has no room for its counts.
pub open spec fn counts_truncated() -> Seq<char> {
    "XlsbUpdater: shared-string header is truncated"@
}

/// The shared strings with the counts of their first header (0x9f) from `pos` on
/// set, as they are where there is none.
pub open spec fn with_counts(buf: Seq<u8>, pos: int, total: u32, unique: u32) -> Result<
    Seq<u8>,
    Seq<char>,
>
    decreases buf.len() - pos,
    when 0 <= pos <= buf.len() <= usize::MAX
{
    proof {
        crate::biff12::lemma_record_bounds(buf, pos);
    }
    match crate::biff12::record_at(buf, pos) {
        Err(message) => Err(message),
        Ok(None) => Ok(buf),
        Ok(Some(rec)) => if rec.id == 0x9f {
            if rec.data_start + 8 > buf.len() {
                Err(counts_truncated())
            } else {
                Ok(
                    with_u32(
                        with_u32(buf, rec.data_start as int, total),
                        rec.data_start + 4,
                        unique,
                    ),
                )
            }
        } else {
            with_counts(buf, rec.data_end as int, total, unique)
        },
    }
}

/// Sets the counts of the shared strings.
pub fn set_counts(buf: &mut Vec<u8>, total: u32, unique: u32) -> (r: SpreadsheetResult<()>)
    ensures
        match r {
            Ok(_) => with_counts(old(buf)@, 0, total, unique) == Ok::<Seq<u8>, Seq<char>>(
                final(buf)@,
            ),
            Err(e) => with_counts(old(buf)@, 0, total, unique) matches Err(message) && e.says(
                message,
            ),
        },
{
    let ghost before = buf@;
    let mut rec = Biff12Record::default();
    let mut pos: usize = 0;
    loop
        invariant
            buf@ == before,
            before == old(buf)@,
            pos <= buf.len(),
            with_counts(before, 0, total, unique) == with_counts(
                before,
                pos as int,
                total,
                unique,
            ),
        decreases buf.len() - pos,
    {
        proof {
            crate::biff12::lemma_record_bounds(before, pos as int);
        }
        match read_record(buf.as_slice(), pos, &mut rec) {
            Err(e) => return Err(e),
            Ok(false) => return Ok(()),
            Ok(true) => {},
        }
        if rec.id == 0x009f {
            if buf.len() - rec.data_start < 8 {
                return Err(invalid("XlsbUpdater: shared-string header is truncated"));
            }
            write_u32_le_at(buf, rec.data_start, total);
            write_u32_le_at(buf, rec.data_start + 4, unique);
            return Ok(());
        }
        pos = rec.data_end;
    }
}

/// A pivot cache while it is brought in step with new rows: its bytes, whether its
/// flags have been met, and whether anything has changed.
pub struct CacheState {
    pub bytes: Seq<u8>,
    pub flagged: bool,
    pub changed: bool,
}

/// The cache with the flag set that has it refreshed when the workbook is opened.
/// Only the first definition record (0xb3) counts.
pub open spec fn with_refresh(state: CacheState, rec: Biff12Record) -> CacheState {
    if rec.id == 0xb3 && rec.len >= 4 && !state.flagged {
        let at = rec.data_start + 3;
        let flags = state.bytes[at];
        if flags / 4 % 2 == 0 {
            CacheState {
                bytes: state.bytes.update(at, (flags + 4) as u8),
                flagged: true,
                changed: true,
            }
        } else {
            CacheState { flagged: true, ..state }
        }
    } else {
        state
    }
}

/// The cache with the range of its source (0xbb) set to end at a row and a column,
/// where the sheet is its source.
pub open spec fn with_source(
    state: CacheState,
    rec: Biff12Record,
    sheet: Seq<char>,
    last_row: u32,
    last_col: u32,
) -> CacheState {
    if rec.id == 0xbb && rec.len >= 23 {
        let count = crate::biff12::le_u32_at(state.bytes, rec.data_start + 3);
        let name_start = rec.data_start + 7;
        let range = name_start + 2 * count;
        let name = match crate::biff12::utf16_at(state.bytes, name_start, count) {
            Ok(name) => name,
            Err(_) => Seq::<char>::empty(),
        };
        if name == sheet && range + 16 <= state.bytes.len() {
            CacheState {
                bytes: with_u32(
                    with_u32(state.bytes, range + 4, last_row),
                    range + 12,
                    last_col,
                ),
                changed: true,
                ..state
            }
        } else {
            state
        }
    } else {
        state
    }
}

/// Bringing a pivot cache in step keeps its length.
pub proof fn lemma_cache_length(
    state: CacheState,
    rec: Biff12Record,
    sheet: Seq<char>,
    last_row: u32,
    last_col: u32,
)
    requires
        rec.data_start + rec.len <= state.bytes.len(),
    ensures
        with_refresh(state, rec).bytes.len() == state.bytes.len(),
        with_source(state, rec, sheet, last_row, last_col).bytes.len() == state.bytes.len(),
{
}

/// The cache after all records from `pos` on.
pub open spec fn cache_from(
    state: CacheState,
    pos: int,
    sheet: Seq<char>,
    last_row: u32,
    last_col: u32,
) -> Result<CacheState, Seq<char>>
    decreases state.bytes.len() - pos,
    when 0 <= pos <= state.bytes.len() <= usize::MAX
{
    proof {
        crate::biff12::lemma_record_bounds(state.bytes, pos);
        if let Ok(Some(rec)) = crate::biff12::record_at(state.bytes, pos) {
            lemma_cache_length(state, rec, sheet, last_row, last_col);
            lemma_cache_length(with_refresh(state, rec), rec, sheet, last_row, last_col);
        }
    }
    match crate::biff12::record_at(state.bytes, pos) {
        Err(message) => Err(message),
        Ok(None) => Ok(state),
        Ok(Some(rec)) => cache_from(
            with_source(with_refresh(state, rec), rec, sheet, last_row, last_col),
            rec.data_end as int,
            sheet,
            last_row,
            last_col,
        ),
    }
}

/// A pivot cache brought in step with new rows of a sheet, where anything changes.
pub open spec fn updated_cache(
    bytes: Seq<u8>,
    sheet: Seq<char>,
    last_row: u32,
    last_col: u32,
) -> Result<Option<Seq<u8>>, Seq<char>> {
    match cache_from(
        CacheState { bytes, flagged: false, changed: false },
        0,
        sheet,
        last_row,
        last_col,
    ) {
        Err(message) => Err(message),
        Ok(state) => Ok(
            if state.changed {
                Some(state.bytes)
            } else {
                None
            },
        ),
    }
}

/// Brings a pivot cache in step with new rows of a sheet. `None` where nothing
/// changes.
pub fn update_pivot_cache(bytes: &[u8], sheet_name: &str, last_row: u32, last_col: u32) -> (r:
    SpreadsheetResult<Option<Vec<u8>>>)
    ensures
        match r {
            Ok(Some(new)) => updated_cache(bytes@, sheet_name@, last_row, last_col) == Ok::<
                Option<Seq<u8>>,
                Seq<char>,
            >(Some(new@)),
            Ok(None) => updated_cache(bytes@, sheet_name@, last_row, last_col) == Ok::<
                Option<Seq<u8>>,
                Seq<char>,
            >(None),
            Err(e) => updated_cache(bytes@, sheet_name@, last_row, last_col) matches Err(message)
                && e.says(message),
        },
{
    let mut buf = vstd::slice::slice_to_vec(bytes);
    let mut flagged = false;
    let mut changed = false;
    let mut rec = Biff12Record::default();
    let mut pos: usize = 0;
    let ghost start = CacheState { bytes: bytes@, flagged: false, changed: false };
    loop
        invariant
            pos <= buf.len(),
            start == (CacheState { bytes: bytes@, flagged: false, changed: false }),
            cache_from(start, 0, sheet_name@, last_row, last_col) == cache_from(
                CacheState { bytes: buf@, flagged, changed },
                pos as int,
                sheet_name@,
                last_row,
                last_col,
            ),
        decreases buf.len() - pos,
    {
        let ghost before = CacheState { bytes: buf@, flagged, changed };
        proof {
            crate::biff12::lemma_record_bounds(buf@, pos as int);
        }
        match read_record(buf.as_slice(), pos, &mut rec) {
            Err(e) => return Err(e),
            Ok(false) => {
                return Ok(
                    if changed {
                        Some(buf)
                    } else {
                        None
                    },
                );
            },
            Ok(true) => {},
        }
        pos = rec.data_end;
        let (met, refreshed) = set_refresh(&mut buf, &rec, flagged, changed);
        flagged = met;
        changed = refreshed;
        proof {
            lemma_cache_length(before, rec, sheet_name@, last_row, last_col);
        }
        changed = set_source(&mut buf, &rec, sheet_name, last_row, last_col, changed, flagged);
    }
}

/// Sets the flag that has a pivot cache refreshed when the workbook is opened.
/// Returns whether the flags have been met, and whether anything has changed.
fn set_refresh(buf: &mut Vec<u8>, rec: &Biff12Record, flagged: bool, changed: bool) -> (r: (
    bool,
    bool,
))
    requires
        rec.data_start + rec.len <= old(buf).len(),
    ensures
        (CacheState { bytes: final(buf)@, flagged: r.0, changed: r.1 }) == with_refresh(
            CacheState { bytes: old(buf)@, flagged, changed },
            *rec,
        ),
        final(buf).len() == old(buf).len(),
{
    if rec.id == 0x00b3 && rec.len >= 4 && !flagged {
        let at: usize = rec.data_start + 3;
        let flags: u8 = buf[at];
        if flags / 4 % 2 == 0 {
            assert(flags <= 251) by (bit_vector)
                requires
                    flags / 4 % 2 == 0u8,
            ;
            buf[at] = flags + 4;
            return (true, true);
        }
        return (true, changed);
    }
    (flagged, changed)
}

/// Sets the range of the source of a pivot cache where a sheet is its source.
/// Returns whether anything has changed.
fn set_source(
    buf: &mut Vec<u8>,
    rec: &Biff12Record,
    sheet_name: &str,
    last_row: u32,
    last_col: u32,
    changed: bool,
    flagged: bool,
) -> (r: bool)
    requires
        rec.data_start + rec.len <= old(buf).len(),
    ensures
        (CacheState { bytes: final(buf)@, flagged, changed: r }) == with_source(
            CacheState { bytes: old(buf)@, flagged, changed },
            *rec,
            sheet_name@,
            last_row,
            last_col,
        ),
        final(buf).len() == old(buf).len(),
{
    if rec.id == 0x00bb && rec.len >= 23 {
        let count: usize = read_u32_le(buf.as_slice(), rec.data_start + 3) as usize;
        let name_start: usize = rec.data_start + 7;
        let name = read_utf16(buf.as_slice(), name_start, count);
        let range: u128 = name_start as u128 + 2 * (count as u128);
        if eq_str(name.as_str(), sheet_name) && range + 16 <= buf.len() as u128 {
            let range: usize = range as usize;
            write_u32_le_at(buf, range + 4, last_row);
            write_u32_le_at(buf, range + 12, last_col);
            return true;
        }
    }
    changed
}

/// The index of the first cell format from `index` on that shows dates.
pub open spec fn dated_format(formats: Seq<u16>, custom: Set<u16>, index: int) -> Option<int>
    decreases formats.len() - index,
{
    if index >= formats.len() {
        None
    } else if crate::xlsb_reader::shows_date(formats[index], custom) {
        Some(index)
    } else {
        dated_format(formats, custom, index + 1)
    }
}

/// The style for dates that a style part offers.
pub open spec fn date_style(bytes: Seq<u8>) -> Result<Option<int>, Seq<char>> {
    match crate::xlsb_reader::styles_from(crate::biff_reader::decoder_at_start(bytes)) {
        Err(message) => Err(message),
        Ok(d) => Ok(dated_format(d.xf_index_to_num_fmt_id, d.custom_num_fmts, 0)),
    }
}

/// The style for dates that a style part offers, if any.
pub fn find_date_xf(bytes: &[u8]) -> (r: SpreadsheetResult<Option<usize>>)
    ensures
        match r {
            Ok(Some(style)) => date_style(bytes@) == Ok::<Option<int>, Seq<char>>(
                Some(style as int),
            ),
            Ok(None) => date_style(bytes@) == Ok::<Option<int>, Seq<char>>(None),
            Err(e) => date_style(bytes@) matches Err(message) && e.says(message),
        },
{
    let d = match crate::xlsb_reader::read_all_styles(bytes) {
        Ok(d) => d,
        Err(e) => return Err(e),
    };
    let ghost formats = d.xf_index_to_num_fmt_id@;
    let ghost custom = d.custom_num_fmts@;
    let mut i: usize = 0;
    while i < d.xf_index_to_num_fmt_id.len()
        invariant
            i <= formats.len(),
            formats == d.xf_index_to_num_fmt_id@,
            custom == d.custom_num_fmts@,
            date_style(bytes@) == Ok::<Option<int>, Seq<char>>(
                dated_format(formats, custom, i as int),
            ),
        decreases formats.len() - i,
    {
        if is_date_num_fmt(d.xf_index_to_num_fmt_id[i], &d.custom_num_fmts) {
            return Ok(Some(i));
        }
        i += 1;
    }
    Ok(None)
}

/// The end of a filter range is written at this offset.
pub open spec fn ends_filter(at: int, i: int) -> bool {
    at + 4 <= i < at + 8 || at + 12 <= i < at + 16
}

/// The end of the dimension is written at this offset.
pub open spec fn ends_dimension(at: int, i: int) -> bool {
    at + 24 <= i < at + 28 || at + 32 <= i < at + 36
}

proof fn lemma_filters_keep(
    buf: Seq<u8>,
    region: Region,
    n: nat,
    rows_len: int,
    last_row: u32,
    last_col: u32,
    i: int,
)
    requires
        n <= region.filters.len(),
        0 <= i < buf.len(),
        forall|k: int|
            0 <= k < region.filters.len() ==> !ends_filter(
                #[trigger] region.filters[k] + distance(region, rows_len),
                i,
            ),
    ensures
        with_filters(buf, region, n, rows_len, last_row, last_col) matches Ok(s) ==> s.len()
            == buf.len() && s[i] == buf[i],
    decreases n,
{
    if n > 0 {
        lemma_filters_keep(buf, region, (n - 1) as nat, rows_len, last_row, last_col, i);
        assert(!ends_filter(region.filters[n - 1] + distance(region, rows_len), i));
    }
}

proof fn lemma_dimension_inside(buf: Seq<u8>, pos: int)
    requires
        0 <= pos <= buf.len() <= usize::MAX,
    ensures
        dimension_at(buf, pos) matches Ok(Some(at)) ==> 0 <= at && at + 36 <= buf.len(),
    decreases buf.len() - pos,
{
    crate::biff12::lemma_record_bounds(buf, pos);
    if let Ok(Some(rec)) = crate::biff12::record_at(buf, pos) {
        lemma_dimension_inside(buf, rec.data_end as int);
    }
}

/// New rows take the place of the old ones, and every byte in front of them and
/// behind them stays but for the ends of the filter ranges and of the dimension.
pub proof fn law_rows_are_replaced_in_place(
    buf: Seq<u8>,
    rows: Seq<u8>,
    last_row: u32,
    last_col: u32,
    i: int,
)
    requires
        buf.len() <= usize::MAX,
        patched_sheet(buf, rows, last_row, last_col) is Ok,
        ({
            let region = rows_region(buf)->Ok_0;
            let spliced = spliced_bytes(buf, region.start, region.end, rows);
            let filtered = with_filters(
                spliced,
                region,
                region.filters.len(),
                rows.len() as int,
                last_row,
                last_col,
            )->Ok_0;
            &&& spliced.len() <= usize::MAX
            &&& 0 <= i < spliced.len()
            &&& forall|k: int|
                0 <= k < region.filters.len() ==> !ends_filter(
                    #[trigger] region.filters[k] + distance(region, rows.len() as int),
                    i,
                )
            &&& dimension_at(filtered, 0) matches Ok(Some(at)) ==> !ends_dimension(at, i)
        }),
    ensures
        ({
            let region = rows_region(buf)->Ok_0;
            let new = patched_sheet(buf, rows, last_row, last_col)->Ok_0;
            new[i] == spliced_bytes(buf, region.start, region.end, rows)[i]
        }),
{
    let region = rows_region(buf)->Ok_0;
    lemma_region_inside(buf);
    let spliced = spliced_bytes(buf, region.start, region.end, rows);
    lemma_filters_keep(
        spliced,
        region,
        region.filters.len(),
        rows.len() as int,
        last_row,
        last_col,
        i,
    );
    let filtered = with_filters(
        spliced,
        region,
        region.filters.len(),
        rows.len() as int,
        last_row,
        last_col,
    )->Ok_0;
    lemma_dimension_inside(filtered, 0);
}

proof fn lemma_filters_length(
    buf: Seq<u8>,
    region: Region,
    n: nat,
    rows_len: int,
    last_row: u32,
    last_col: u32,
)
    requires
        n <= region.filters.len(),
    ensures
        with_filters(buf, region, n, rows_len, last_row, last_col) matches Ok(s) ==> s.len()
            == buf.len(),
    decreases n,
{
    if n > 0 {
        lemma_filters_length(buf, region, (n - 1) as nat, rows_len, last_row, last_col);
    }
}

/// The new rows stand unchanged in the worksheet where the old ones stood, if the
/// filter ranges and the dimension lie outside the rows.
pub proof fn law_new_rows_stand_in_place(
    buf: Seq<u8>,
    rows: Seq<u8>,
    last_row: u32,
    last_col: u32,
)
    requires
        buf.len() <= usize::MAX,
        patched_sheet(buf, rows, last_row, last_col) is Ok,
        ({
            let region = rows_region(buf)->Ok_0;
            let spliced = spliced_bytes(buf, region.start, region.end, rows);
            let filtered = with_filters(
                spliced,
                region,
                region.filters.len(),
                rows.len() as int,
                last_row,
                last_col,
            )->Ok_0;
            &&& 0 <= region.start <= region.end <= buf.len()
            &&& spliced.len() <= usize::MAX
            &&& forall|k: int|
                0 <= k < region.filters.len() ==> #[trigger] region.filters[k] >= region.end
            &&& dimension_at(filtered, 0) matches Ok(Some(at)) ==> at + 36 <= region.start || at
                >= region.start + rows.len()
        }),
    ensures
        ({
            let region = rows_region(buf)->Ok_0;
            let new = patched_sheet(buf, rows, last_row, last_col)->Ok_0;
            &&& new.len() == region.start + rows.len() + (buf.len() - region.end)
            &&& new == new.take(region.start) + rows + new.skip(region.start + rows.len())
        }),
{
    let region = rows_region(buf)->Ok_0;
    lemma_region_inside(buf);
    let spliced = spliced_bytes(buf, region.start, region.end, rows);
    let new = patched_sheet(buf, rows, last_row, last_col)->Ok_0;
    let n = region.filters.len();
    lemma_filters_length(spliced, region, n, rows.len() as int, last_row, last_col);
    let filtered = with_filters(spliced, region, n, rows.len() as int, last_row, last_col)->Ok_0;
    lemma_dimension_inside(filtered, 0);
    assert(new.len() == spliced.len());
    let span = new.subrange(region.start, region.start + rows.len());
    assert forall|j: int| 0 <= j < rows.len() implies span[j] == rows[j] by {
        let i = region.start + j;
        assert forall|k: int| 0 <= k < n implies !ends_filter(
            #[trigger] region.filters[k] + distance(region, rows.len() as int),
            i,
        ) by {
            assert(region.filters[k] >= region.end);
        }
        law_rows_are_replaced_in_place(buf, rows, last_row, last_col, i);
        assert(spliced[i] == rows[j]);
    }
    assert(span =~= rows);
    assert(new =~= new.take(region.start) + span + new.skip(region.start + rows.len()));
}

} // verus!
