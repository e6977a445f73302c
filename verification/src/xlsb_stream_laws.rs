//! Rows that are handed to an XLSB workbook one by one lead to the worksheet that
//! they lead to at once.

use vstd::prelude::*;
use crate::number::NumberTable;
use crate::xlsb_package::{BinStreamState, XlsbPackage};
use crate::xlsb_patch::{Overwritten, Region, RowMarks};
use crate::xlsb_update_rows::BinStrings;
use crate::xlsx_package::StyleFallback;
use crate::xlsx_update_rows::Looks;

verus! {

/// What taking rows one by one has led to: the shared strings, how far the rows
/// have come, and the bytes of each of them.
pub struct Streamed {
    pub strings: BinStrings,
    pub stream: BinStreamState,
    pub rows: Seq<Seq<u8>>,
}

/// What taking the first `n` rows leads to.
pub open spec fn streamed(
    strings: BinStrings,
    stream: BinStreamState,
    rows: Seq<Seq<crate::formats::Cell>>,
    n: nat,
    numbers: NumberTable,
) -> Streamed
    decreases n,
{
    if n == 0 {
        Streamed { strings, stream, rows: Seq::empty() }
    } else {
        let before = streamed(strings, stream, rows, (n - 1) as nat, numbers);
        let row = rows[n - 1];
        let cells = crate::xlsb_update_rows::value_cells(
            before.strings,
            row,
            row.len(),
            before.stream.looks,
            numbers,
        );
        Streamed {
            strings: cells.strings,
            stream: before.stream.with_row(row),
            rows: before.rows.push(before.stream.row(cells.bytes)),
        }
    }
}

/// The bytes of a row with the number of its last column written into it.
pub open spec fn row_closed(row: Seq<u8>, last_col: u32) -> Seq<u8> {
    crate::xlsb_patch::with_u32(
        row,
        crate::xlsb_update_rows::LAST_COLUMN_OFFSET as int,
        last_col,
    )
}

/// The first `n` rows, one behind the other, with the number of the last column
/// written into each.
pub open spec fn rows_closed(rows: Seq<Seq<u8>>, n: nat, last_col: u32) -> Seq<u8>
    decreases n,
{
    if n == 0 {
        Seq::empty()
    } else {
        rows_closed(rows, (n - 1) as nat, last_col) + row_closed(rows[n - 1], last_col)
    }
}

/// A header row with the number of its last column, nothing where there is none.
pub open spec fn header_closed(header: Seq<u8>, last_col: u32) -> Seq<u8> {
    if header.len() == 0 {
        header
    } else {
        row_closed(header, last_col)
    }
}

/// The bytes with numbers written over them, one after the other.
pub open spec fn written_over(s: Seq<u8>, list: Seq<Overwritten>) -> Seq<u8>
    decreases list.len(),
{
    if list.len() == 0 {
        s
    } else {
        crate::xlsb_patch::with_u32(
            written_over(s, list.drop_last()),
            list.last().offset,
            list.last().value,
        )
    }
}

/// The worksheet that a file holds once rows stand in it in place of the old ones
/// and the planned numbers have been written over it.
pub open spec fn assembled(bytes: Seq<u8>, rows: Seq<u8>, last_row: u32, last_col: u32) -> Seq<u8> {
    let region = crate::xlsb_patch::rows_region(bytes)->Ok_0;
    written_over(
        crate::xlsb_patch::spliced_bytes(bytes, region.start, region.end, rows),
        crate::xlsb_patch::sheet_overwrites(
            bytes,
            region,
            rows.len() as int,
            last_row,
            last_col,
        )->Ok_0,
    )
}

/// The worksheet says in front of its rows how far they reach, and has its filter
/// ranges behind them.
pub open spec fn is_in_order(bytes: Seq<u8>) -> bool {
    &&& crate::xlsb_patch::rows_region(bytes) matches Ok(region)
    &&& forall|k: int|
        0 <= k < region.filters.len() ==> #[trigger] region.filters[k] >= region.end
    &&& crate::xlsb_patch::dimension_at(bytes, 0) matches Ok(Some(at))
    &&& at < region.start
}

proof fn lemma_marks_follow(buf: Seq<u8>, pos: int, marks: RowMarks)
    requires
        0 <= pos <= buf.len() <= usize::MAX,
    ensures
        crate::xlsb_patch::row_marks(buf, pos, marks) matches Ok(all) ==> {
            &&& all.first_row == marks.first_row || all.first_row->Some_0 >= pos
            &&& all.mark == marks.mark || all.mark->Some_0 >= pos
            &&& marks.first_row is Some ==> all.first_row is Some
            &&& marks.mark is Some ==> all.mark is Some
        },
    decreases buf.len() - pos,
{
    crate::biff12::lemma_record_bounds(buf, pos);
    if let Ok(Some(rec)) = crate::biff12::record_at(buf, pos) {
        lemma_marks_follow(
            buf,
            rec.data_end as int,
            crate::xlsb_patch::with_record(marks, rec),
        );
    }
}

/// The mark that the rows start at.
spec fn starts_at(all: RowMarks, len: int, start: int) -> bool {
    all.first_row == Some(start) || all.mark == Some(start) || start == len
}

/// A dimension that is found in front of the rows is found there too where only
/// the bytes from the rows on differ.
proof fn lemma_same_dimension(a: Seq<u8>, b: Seq<u8>, pos: int, marks: RowMarks, start: int)
    requires
        0 <= pos <= a.len() <= usize::MAX,
        start <= a.len(),
        start <= b.len() <= usize::MAX,
        forall|j: int| 0 <= j < start ==> a[j] == b[j],
        marks.first_row matches Some(n) ==> n <= pos,
        marks.mark matches Some(n) ==> n <= pos,
        crate::xlsb_patch::row_marks(a, pos, marks) matches Ok(all) && starts_at(
            all,
            a.len() as int,
            start,
        ),
        crate::xlsb_patch::dimension_at(a, pos) matches Ok(Some(at)) && at < start,
    ensures
        crate::xlsb_patch::dimension_at(b, pos) == crate::xlsb_patch::dimension_at(a, pos),
        crate::xlsb_patch::dimension_at(a, pos)->Ok_0->Some_0 + 36 <= start,
        0 <= pos < crate::xlsb_patch::dimension_at(a, pos)->Ok_0->Some_0,
    decreases a.len() - pos,
{
    crate::biff12::lemma_record_bounds(a, pos);
    let rec = crate::biff12::record_at(a, pos)->Ok_0->Some_0;
    let next = crate::xlsb_patch::with_record(marks, rec);
    lemma_marks_follow(a, rec.data_end as int, next);
    if rec.id == 0x98 && rec.len >= 36 {
        crate::xlsb_string_laws::lemma_same_record(a, b, pos);
    } else {
        lemma_same_dimension(a, b, rec.data_end as int, next, start);
        crate::xlsb_string_laws::lemma_same_record(a, b, pos);
    }
}

/// Numbers that are written at two places that lie apart can be written in either
/// order.
proof fn lemma_order_is_free(s: Seq<u8>, p: int, q: int, a: u32, b: u32)
    requires
        0 <= p,
        p + 4 <= q,
        q + 4 <= s.len(),
    ensures
        crate::xlsb_patch::with_u32(crate::xlsb_patch::with_u32(s, q, b), p, a)
            == crate::xlsb_patch::with_u32(crate::xlsb_patch::with_u32(s, p, a), q, b),
{
    assert(crate::xlsb_patch::with_u32(crate::xlsb_patch::with_u32(s, q, b), p, a)
        =~= crate::xlsb_patch::with_u32(crate::xlsb_patch::with_u32(s, p, a), q, b));
}

proof fn lemma_two_written(s: Seq<u8>, list: Seq<Overwritten>, a: Overwritten, b: Overwritten)
    ensures
        written_over(s, list.push(a).push(b)) == crate::xlsb_patch::with_u32(
            crate::xlsb_patch::with_u32(written_over(s, list), a.offset, a.value),
            b.offset,
            b.value,
        ),
{
    reveal_with_fuel(written_over, 3);
    assert(list.push(a).push(b).drop_last() =~= list.push(a));
    assert(list.push(a).drop_last() =~= list);
}

/// Writing over the filter ranges sets them, and leaves what stands in front of
/// the rows.
proof fn lemma_filters_written(
    s: Seq<u8>,
    region: Region,
    n: nat,
    rows_len: int,
    last_row: u32,
    last_col: u32,
)
    requires
        n <= region.filters.len(),
        0 <= region.start <= region.end,
        rows_len >= 0,
        forall|k: int|
            0 <= k < region.filters.len() ==> #[trigger] region.filters[k] >= region.end
                && region.filters[k] + 16 + rows_len - (region.end - region.start) <= s.len(),
    ensures
        crate::xlsb_patch::with_filters(s, region, n, rows_len, last_row, last_col) == Ok::<
            Seq<u8>,
            Seq<char>,
        >(
            written_over(
                s,
                crate::xlsb_patch::filter_overwrites(region, n, rows_len, last_row, last_col),
            ),
        ),
        ({
            let after = written_over(
                s,
                crate::xlsb_patch::filter_overwrites(region, n, rows_len, last_row, last_col),
            );
            &&& after.len() == s.len()
            &&& forall|j: int| 0 <= j < region.start ==> after[j] == s[j]
        }),
    decreases n,
{
    if n > 0 {
        lemma_filters_written(s, region, (n - 1) as nat, rows_len, last_row, last_col);
        assert(region.filters[n - 1] >= region.end);
        let at = crate::xlsb_patch::moved_offset(region.filters[n - 1], region, rows_len);
        let list = crate::xlsb_patch::filter_overwrites(
            region,
            (n - 1) as nat,
            rows_len,
            last_row,
            last_col,
        );
        lemma_two_written(
            s,
            list,
            Overwritten { offset: at + 4, value: last_row },
            Overwritten { offset: at + 12, value: last_col },
        );
        lemma_order_is_free(written_over(s, list), at + 4, at + 12, last_row, last_col);
    }
}

proof fn lemma_in_order(
    bytes: Seq<u8>,
    rows: Seq<u8>,
    last_row: u32,
    last_col: u32,
)
    requires
        bytes.len() + rows.len() <= usize::MAX,
        is_in_order(bytes),
    ensures
        crate::xlsb_patch::sheet_overwrites(
            bytes,
            crate::xlsb_patch::rows_region(bytes)->Ok_0,
            rows.len() as int,
            last_row,
            last_col,
        ) is Ok,
        crate::xlsb_patch::patched_sheet(bytes, rows, last_row, last_col) == Ok::<
            Seq<u8>,
            Seq<char>,
        >(assembled(bytes, rows, last_row, last_col)),
{
    let region = crate::xlsb_patch::rows_region(bytes)->Ok_0;
    crate::xlsb_patch::lemma_region_inside(bytes);
    let spliced = crate::xlsb_patch::spliced_bytes(bytes, region.start, region.end, rows);
    let n = region.filters.len();
    let len = rows.len() as int;
    let list = crate::xlsb_patch::filter_overwrites(region, n, len, last_row, last_col);
    lemma_filters_written(spliced, region, n, len, last_row, last_col);
    let filtered = written_over(spliced, list);
    let no_marks = crate::xlsb_patch::no_marks();
    lemma_same_dimension(bytes, filtered, 0, no_marks, region.start);
    let at = crate::xlsb_patch::dimension_at(bytes, 0)->Ok_0->Some_0;
    lemma_two_written(
        spliced,
        list,
        Overwritten { offset: at + 24, value: last_row },
        Overwritten { offset: at + 32, value: last_col },
    );
}

/// The worksheet has its filter ranges behind its rows, and what it says of how far
/// they reach, if it says so, in front of the rows or behind them.
pub open spec fn is_apart(bytes: Seq<u8>) -> bool {
    &&& crate::xlsb_patch::rows_region(bytes) matches Ok(region)
    &&& forall|k: int|
        0 <= k < region.filters.len() ==> #[trigger] region.filters[k] >= region.end
    &&& crate::xlsb_patch::dimension_at(bytes, 0) matches Ok(Some(at)) ==> at < region.start || at
        >= region.end
}

/// Writing over one filter range leaves the filter ranges and the dimension where
/// they are.
proof fn lemma_filter_set(
    s: Seq<u8>,
    region: Region,
    k: int,
    rows_len: int,
    last_row: u32,
    last_col: u32,
)
    requires
        0 <= k < region.filters.len(),
        s.len() <= usize::MAX,
        crate::xlsb_walk_laws::leads(s, 0, s.len() as int),
        crate::xlsb_walk_laws::filters_stand(s, region, rows_len),
    ensures
        ({
            let at = crate::xlsb_patch::moved_offset(region.filters[k], region, rows_len);
            let after = crate::xlsb_patch::with_u32(
                crate::xlsb_patch::with_u32(s, at + 4, last_row),
                at + 12,
                last_col,
            );
            &&& 0 <= at
            &&& at + 16 <= s.len()
            &&& after == crate::xlsb_patch::with_u32(
                crate::xlsb_patch::with_u32(s, at + 12, last_col),
                at + 4,
                last_row,
            )
            &&& after.len() == s.len()
            &&& crate::xlsb_walk_laws::leads(after, 0, after.len() as int)
            &&& crate::xlsb_walk_laws::filters_stand(after, region, rows_len)
            &&& crate::xlsb_patch::dimension_at(after, 0) == crate::xlsb_patch::dimension_at(s, 0)
        }),
{
    let at = crate::xlsb_patch::moved_offset(region.filters[k], region, rows_len);
    assert(crate::xlsb_walk_laws::has_filter(s, 0, at));
    crate::xlsb_walk_laws::lemma_filter_inside(s, at);
    lemma_order_is_free(s, at + 4, at + 12, last_row, last_col);
    let after = crate::xlsb_patch::with_u32(
        crate::xlsb_patch::with_u32(s, at + 4, last_row),
        at + 12,
        last_col,
    );
    crate::xlsb_walk_laws::lemma_filter_written(s, after, at, region, rows_len);
}

/// Writing over the filter ranges of a worksheet sets them, and leaves the
/// dimension where it is.
proof fn lemma_standing_filters_written(
    s: Seq<u8>,
    region: Region,
    n: nat,
    rows_len: int,
    last_row: u32,
    last_col: u32,
)
    requires
        n <= region.filters.len(),
        s.len() <= usize::MAX,
        crate::xlsb_walk_laws::leads(s, 0, s.len() as int),
        crate::xlsb_walk_laws::filters_stand(s, region, rows_len),
        forall|k: int|
            0 <= k < region.filters.len() ==> #[trigger] region.filters[k] >= region.end,
    ensures
        ({
            let after = written_over(
                s,
                crate::xlsb_patch::filter_overwrites(region, n, rows_len, last_row, last_col),
            );
            &&& crate::xlsb_patch::with_filters(s, region, n, rows_len, last_row, last_col)
                == Ok::<Seq<u8>, Seq<char>>(after)
            &&& after.len() == s.len()
            &&& crate::xlsb_walk_laws::leads(after, 0, after.len() as int)
            &&& crate::xlsb_walk_laws::filters_stand(after, region, rows_len)
            &&& crate::xlsb_patch::dimension_at(after, 0) == crate::xlsb_patch::dimension_at(s, 0)
        }),
    decreases n,
{
    if n > 0 {
        lemma_standing_filters_written(s, region, (n - 1) as nat, rows_len, last_row, last_col);
        let at = crate::xlsb_patch::moved_offset(region.filters[n - 1], region, rows_len);
        let list = crate::xlsb_patch::filter_overwrites(
            region,
            (n - 1) as nat,
            rows_len,
            last_row,
            last_col,
        );
        lemma_filter_set(written_over(s, list), region, n - 1, rows_len, last_row, last_col);
        lemma_two_written(
            s,
            list,
            Overwritten { offset: at + 4, value: last_row },
            Overwritten { offset: at + 12, value: last_col },
        );
    }
}

/// The records lead to where the rows start and end, to the filter ranges and to
/// the end.
pub proof fn lemma_region_led_to(bytes: Seq<u8>)
    requires
        bytes.len() <= usize::MAX,
        crate::xlsb_patch::rows_region(bytes) is Ok,
    ensures
        ({
            let region = crate::xlsb_patch::rows_region(bytes)->Ok_0;
            &&& 0 <= region.start <= region.end <= bytes.len()
            &&& crate::xlsb_walk_laws::leads(bytes, 0, region.start)
            &&& crate::xlsb_walk_laws::leads(bytes, 0, region.end)
            &&& crate::xlsb_walk_laws::leads(bytes, 0, bytes.len() as int)
            &&& forall|k: int|
                0 <= k < region.filters.len() ==> crate::xlsb_walk_laws::has_filter(
                    bytes,
                    0,
                    #[trigger] region.filters[k],
                )
        }),
{
    crate::xlsb_patch::lemma_region_inside(bytes);
    crate::xlsb_walk_laws::lemma_marks_led_to(bytes, 0, crate::xlsb_patch::no_marks());
}

/// Where rows of whole records take the place of the old ones, the records lead
/// through the worksheet as before.
proof fn lemma_spliced(bytes: Seq<u8>, rows: Seq<u8>)
    requires
        bytes.len() + rows.len() <= usize::MAX,
        crate::xlsb_patch::rows_region(bytes) is Ok,
        crate::xlsb_laws::records_from(rows, 0, crate::xlsb_walk_laws::no_dimension()),
    ensures
        ({
            let region = crate::xlsb_patch::rows_region(bytes)->Ok_0;
            let s = crate::xlsb_patch::spliced_bytes(bytes, region.start, region.end, rows);
            let behind = region.start + rows.len();
            &&& s.len() <= usize::MAX
            &&& crate::xlsb_walk_laws::leads(s, 0, behind)
            &&& crate::xlsb_walk_laws::leads(s, 0, s.len() as int)
            &&& crate::xlsb_patch::dimension_at(s, region.start)
                == crate::xlsb_patch::dimension_at(s, behind)
            &&& crate::xlsb_walk_laws::leads(bytes, region.end, bytes.len() as int)
            &&& crate::xlsb_walk_laws::leads(bytes, region.start, region.end)
        }),
{
    let region = crate::xlsb_patch::rows_region(bytes)->Ok_0;
    lemma_region_led_to(bytes);
    let s = crate::xlsb_patch::spliced_bytes(bytes, region.start, region.end, rows);
    let n = rows.len() as int;
    let behind = region.start + n;
    let d = n - (region.end - region.start);
    crate::xlsb_walk_laws::lemma_leads_between(bytes, 0, region.end, bytes.len() as int);
    crate::xlsb_walk_laws::lemma_leads_between(bytes, 0, region.start, region.end);
    assert forall|j: int| 0 <= j < region.start implies #[trigger] bytes[j] == s[j + 0] by {}
    crate::xlsb_walk_laws::lemma_stretch(bytes, s, 0, region.start, 0);
    crate::xlsb_walk_laws::lemma_no_dimension(rows, 0);
    assert forall|j: int| 0 <= j < n implies #[trigger] rows[j] == s[j + region.start] by {}
    crate::xlsb_walk_laws::lemma_stretch(rows, s, 0, n, region.start);
    assert(!crate::xlsb_walk_laws::found_before(rows, 0, n));
    assert forall|j: int| region.end <= j < bytes.len() implies #[trigger] bytes[j] == s[j + d] by {}
    crate::xlsb_walk_laws::lemma_stretch(bytes, s, region.end, bytes.len() as int, d);
    crate::xlsb_walk_laws::lemma_leads_further(s, 0, region.start, behind);
    crate::xlsb_walk_laws::lemma_leads_further(s, 0, behind, s.len() as int);
}

/// The filter ranges stand where they have moved to.
proof fn lemma_filters_moved(bytes: Seq<u8>, rows: Seq<u8>)
    requires
        bytes.len() + rows.len() <= usize::MAX,
        is_apart(bytes),
        crate::xlsb_laws::records_from(rows, 0, crate::xlsb_walk_laws::no_dimension()),
    ensures
        ({
            let region = crate::xlsb_patch::rows_region(bytes)->Ok_0;
            crate::xlsb_walk_laws::filters_stand(
                crate::xlsb_patch::spliced_bytes(bytes, region.start, region.end, rows),
                region,
                rows.len() as int,
            )
        }),
{
    let region = crate::xlsb_patch::rows_region(bytes)->Ok_0;
    lemma_region_led_to(bytes);
    lemma_spliced(bytes, rows);
    let s = crate::xlsb_patch::spliced_bytes(bytes, region.start, region.end, rows);
    let n = rows.len() as int;
    let behind = region.start + n;
    let d = n - (region.end - region.start);
    let len = bytes.len() as int;
    assert forall|k: int|
        0 <= k < region.filters.len() implies crate::xlsb_walk_laws::has_filter(
        s,
        0,
        crate::xlsb_patch::moved_offset(#[trigger] region.filters[k], region, n),
    ) by {
        let q = region.filters[k];
        assert(crate::xlsb_walk_laws::has_filter(bytes, 0, q));
        crate::xlsb_walk_laws::lemma_filter_behind(bytes, region.end, q);
        crate::xlsb_walk_laws::lemma_filter_inside(bytes, q);
        assert forall|j: int| region.end <= j < len implies #[trigger] bytes[j] == s[j + d] by {}
        crate::xlsb_walk_laws::lemma_filter_moves(bytes, s, region.end, len, d, q);
        let p = choose|p: int| #[trigger]
            crate::xlsb_walk_laws::is_filter(s, p, q + d) && crate::xlsb_walk_laws::leads(
                s,
                behind,
                p,
            );
        crate::xlsb_walk_laws::lemma_leads_further(s, 0, behind, p);
    }
}

/// The dimension stands where it has moved to, if there is one.
proof fn lemma_dimension_moved(bytes: Seq<u8>, rows: Seq<u8>)
    requires
        bytes.len() + rows.len() <= usize::MAX,
        is_apart(bytes),
        crate::xlsb_laws::records_from(rows, 0, crate::xlsb_walk_laws::no_dimension()),
    ensures
        ({
            let region = crate::xlsb_patch::rows_region(bytes)->Ok_0;
            let s = crate::xlsb_patch::spliced_bytes(bytes, region.start, region.end, rows);
            crate::xlsb_patch::dimension_at(s, 0) == match crate::xlsb_patch::dimension_at(
                bytes,
                0,
            ) {
                Ok(Some(at)) => Ok::<Option<int>, Seq<char>>(
                    Some(crate::xlsb_patch::moved_offset(at, region, rows.len() as int)),
                ),
                _ => Ok(None),
            } && crate::xlsb_patch::dimension_at(bytes, 0) is Ok
        }),
{
    let region = crate::xlsb_patch::rows_region(bytes)->Ok_0;
    lemma_region_led_to(bytes);
    lemma_spliced(bytes, rows);
    let s = crate::xlsb_patch::spliced_bytes(bytes, region.start, region.end, rows);
    let n = rows.len() as int;
    let d = n - (region.end - region.start);
    let len = bytes.len() as int;
    assert forall|j: int| 0 <= j < region.start implies #[trigger] bytes[j] == s[j + 0] by {}
    crate::xlsb_walk_laws::lemma_stretch(bytes, s, 0, region.start, 0);
    crate::xlsb_walk_laws::lemma_stretch(bytes, bytes, region.start, region.end, 0);
    assert forall|j: int| region.end <= j < len implies #[trigger] bytes[j] == s[j + d] by {}
    crate::xlsb_walk_laws::lemma_stretch(bytes, s, region.end, len, d);
    crate::xlsb_walk_laws::lemma_dimension_follows(bytes, region.end);
}

proof fn lemma_apart(bytes: Seq<u8>, rows: Seq<u8>, last_row: u32, last_col: u32)
    requires
        bytes.len() + rows.len() <= usize::MAX,
        is_apart(bytes),
        crate::xlsb_laws::records_from(rows, 0, crate::xlsb_walk_laws::no_dimension()),
    ensures
        crate::xlsb_patch::sheet_overwrites(
            bytes,
            crate::xlsb_patch::rows_region(bytes)->Ok_0,
            rows.len() as int,
            last_row,
            last_col,
        ) is Ok,
        crate::xlsb_patch::patched_sheet(bytes, rows, last_row, last_col) == Ok::<
            Seq<u8>,
            Seq<char>,
        >(assembled(bytes, rows, last_row, last_col)),
{
    let region = crate::xlsb_patch::rows_region(bytes)->Ok_0;
    let spliced = crate::xlsb_patch::spliced_bytes(bytes, region.start, region.end, rows);
    let n = region.filters.len();
    let len = rows.len() as int;
    let list = crate::xlsb_patch::filter_overwrites(region, n, len, last_row, last_col);
    lemma_spliced(bytes, rows);
    lemma_filters_moved(bytes, rows);
    lemma_dimension_moved(bytes, rows);
    lemma_standing_filters_written(spliced, region, n, len, last_row, last_col);
    if let Ok(Some(start)) = crate::xlsb_patch::dimension_at(bytes, 0) {
        let at = crate::xlsb_patch::moved_offset(start, region, len);
        lemma_two_written(
            spliced,
            list,
            Overwritten { offset: at + 24, value: last_row },
            Overwritten { offset: at + 32, value: last_col },
        );
    }
}

/// Where the dimension is found once the rows have been replaced and the filter
/// ranges set.
pub proof fn lemma_dimension_found(bytes: Seq<u8>, rows: Seq<u8>, last_row: u32, last_col: u32)
    requires
        bytes.len() + rows.len() <= usize::MAX,
        is_in_order(bytes) || is_apart(bytes) && are_records(rows),
    ensures
        ({
            let region = crate::xlsb_patch::rows_region(bytes)->Ok_0;
            let spliced = crate::xlsb_patch::spliced_bytes(bytes, region.start, region.end, rows);
            &&& crate::xlsb_patch::with_filters(
                spliced,
                region,
                region.filters.len(),
                rows.len() as int,
                last_row,
                last_col,
            ) matches Ok(filtered)
            &&& crate::xlsb_patch::dimension_at(filtered, 0)
                == match crate::xlsb_patch::dimension_at(bytes, 0) {
                Ok(Some(at)) => Ok::<Option<int>, Seq<char>>(
                    Some(crate::xlsb_patch::moved_offset(at, region, rows.len() as int)),
                ),
                _ => Ok(None),
            }
        }),
{
    let region = crate::xlsb_patch::rows_region(bytes)->Ok_0;
    crate::xlsb_patch::lemma_region_inside(bytes);
    let spliced = crate::xlsb_patch::spliced_bytes(bytes, region.start, region.end, rows);
    let n = region.filters.len();
    let len = rows.len() as int;
    if is_in_order(bytes) {
        lemma_filters_written(spliced, region, n, len, last_row, last_col);
        let list = crate::xlsb_patch::filter_overwrites(region, n, len, last_row, last_col);
        let filtered = written_over(spliced, list);
        let no_marks = crate::xlsb_patch::no_marks();
        lemma_same_dimension(bytes, filtered, 0, no_marks, region.start);
    } else {
        lemma_spliced(bytes, rows);
        lemma_filters_moved(bytes, rows);
        lemma_dimension_moved(bytes, rows);
        lemma_standing_filters_written(spliced, region, n, len, last_row, last_col);
    }
}

/// Rows that stand in a file and are put into a worksheet by writing over it lead
/// to the worksheet that putting them in place at once leads to, where the
/// worksheet has its filter ranges behind its rows and says in front of them how
/// far they reach, or where the new rows are whole records and it says so behind
/// the rows or not at all.
pub proof fn law_assembled_sheet_is_the_patched_one(
    bytes: Seq<u8>,
    rows: Seq<u8>,
    last_row: u32,
    last_col: u32,
)
    requires
        bytes.len() + rows.len() <= usize::MAX,
        is_in_order(bytes) || is_apart(bytes) && crate::xlsb_laws::records_from(
            rows,
            0,
            crate::xlsb_walk_laws::no_dimension(),
        ),
    ensures
        crate::xlsb_patch::sheet_overwrites(
            bytes,
            crate::xlsb_patch::rows_region(bytes)->Ok_0,
            rows.len() as int,
            last_row,
            last_col,
        ) is Ok,
        crate::xlsb_patch::patched_sheet(bytes, rows, last_row, last_col) == Ok::<
            Seq<u8>,
            Seq<char>,
        >(assembled(bytes, rows, last_row, last_col)),
{
    if is_in_order(bytes) {
        lemma_in_order(bytes, rows, last_row, last_col);
    } else {
        lemma_apart(bytes, rows, last_row, last_col);
    }
}

/// An empty row leaves no trace.
proof fn lemma_blank_cells(
    strings: BinStrings,
    row: Seq<crate::formats::Cell>,
    n: nat,
    looks: Looks,
    numbers: NumberTable,
)
    requires
        n <= row.len(),
        crate::xlsx_package::is_blank(row),
    ensures
        crate::xlsb_update_rows::value_cells(strings, row, n, looks, numbers).strings == strings,
    decreases n,
{
    if n > 0 {
        lemma_blank_cells(strings, row, (n - 1) as nat, looks, numbers);
        assert(row[n - 1].value is Empty && row[n - 1].format is None);
    }
}

/// Rows look the same whatever stands behind them.
proof fn lemma_rows_front(
    strings: BinStrings,
    a: Seq<Seq<crate::formats::Cell>>,
    b: Seq<Seq<crate::formats::Cell>>,
    n: nat,
    first: int,
    last_col: int,
    looks: Looks,
    numbers: NumberTable,
)
    requires
        forall|k: int| 0 <= k < n ==> a[k] == b[k],
    ensures
        crate::xlsb_update_rows::value_rows(strings, a, n, first, last_col, looks, numbers)
            == crate::xlsb_update_rows::value_rows(
            strings,
            b,
            n,
            first,
            last_col,
            looks,
            numbers,
        ),
    decreases n,
{
    if n > 0 {
        lemma_rows_front(strings, a, b, (n - 1) as nat, first, last_col, looks, numbers);
    }
}

/// How far the rows have come after the first `n`: those in front of the empty
/// ones at the end stay.
proof fn lemma_rows_counted(
    strings: BinStrings,
    stream: BinStreamState,
    rows: Seq<Seq<crate::formats::Cell>>,
    n: nat,
    numbers: NumberTable,
)
    requires
        n <= rows.len(),
        stream.seen == 0,
        stream.kept == 0,
        stream.pending_width == 0,
        stream.width >= 0,
    ensures
        ({
            let after = streamed(strings, stream, rows, n, numbers).stream;
            &&& after.seen == n
            &&& 0 <= after.kept <= n
            &&& after.has_headers == stream.has_headers
            &&& after.looks == stream.looks
            &&& crate::xlsx_package::kept_rows(rows.take(n as int)) == rows.take(after.kept)
            &&& after.width == crate::xlsx_package::larger(
                crate::xlsx_package::widest(rows.take(after.kept)),
                stream.width,
            )
            &&& crate::xlsx_package::widest(rows.take(n as int)) == crate::xlsx_package::larger(
                crate::xlsx_package::widest(rows.take(after.kept)),
                after.pending_width,
            )
            &&& after.pending_width >= 0
            &&& crate::xlsx_package::widest(rows.take(after.kept)) >= 0
        }),
    decreases n,
{
    if n == 0 {
        assert(rows.take(0).len() == 0);
    } else {
        lemma_rows_counted(strings, stream, rows, (n - 1) as nat, numbers);
        assert(rows.take(n as int).drop_last() =~= rows.take(n - 1));
        assert(rows.take(n as int).last() == rows[n - 1]);
    }
}

/// Which row the first of the rows is.
spec fn first_row(stream: BinStreamState) -> int {
    stream.header_rows()
}

/// The rows that came one by one, up to the last that stays, are those of the sheet
/// once the number of the last column has been written into them.
proof fn lemma_rows_streamed(
    strings: BinStrings,
    stream: BinStreamState,
    rows: Seq<Seq<crate::formats::Cell>>,
    n: nat,
    last_col: int,
    numbers: NumberTable,
)
    requires
        n <= rows.len(),
        stream.seen == 0,
        stream.kept == 0,
        stream.pending_width == 0,
        stream.width >= 0,
    ensures
        ({
            let after = streamed(strings, stream, rows, n, numbers);
            let whole = crate::xlsb_update_rows::value_rows(
                strings,
                rows,
                n,
                first_row(stream),
                last_col,
                stream.looks,
                numbers,
            );
            let kept = crate::xlsb_update_rows::value_rows(
                strings,
                rows,
                after.stream.kept as nat,
                first_row(stream),
                last_col,
                stream.looks,
                numbers,
            );
            &&& after.rows.len() == n
            &&& whole.strings == after.strings
            &&& kept.strings == after.strings
            &&& forall|k: nat|
                k <= n ==> #[trigger] rows_closed(
                    after.rows,
                    k,
                    crate::xlsb_cells::low32(last_col),
                ) == crate::xlsb_update_rows::value_rows(
                    strings,
                    rows,
                    k,
                    first_row(stream),
                    last_col,
                    stream.looks,
                    numbers,
                ).bytes
        }),
    decreases n,
{
    lemma_rows_counted(strings, stream, rows, n, numbers);
    if n > 0 {
        lemma_rows_streamed(strings, stream, rows, (n - 1) as nat, last_col, numbers);
        lemma_rows_counted(strings, stream, rows, (n - 1) as nat, numbers);
        let before = streamed(strings, stream, rows, (n - 1) as nat, numbers);
        let after = streamed(strings, stream, rows, n, numbers);
        let row = rows[n - 1];
        let cells = crate::xlsb_update_rows::value_cells(
            before.strings,
            row,
            row.len(),
            stream.looks,
            numbers,
        );
        let col = crate::xlsb_cells::low32(last_col);
        if crate::xlsx_package::is_blank(row) {
            lemma_blank_cells(before.strings, row, row.len(), stream.looks, numbers);
        }
        crate::xlsb_update_rows::law_last_column_is_written_afterwards(
            first_row(stream) + n - 1,
            0,
            last_col,
            cells.bytes,
        );
        assert forall|k: nat| k <= n implies #[trigger] rows_closed(after.rows, k, col)
            == crate::xlsb_update_rows::value_rows(
            strings,
            rows,
            k,
            first_row(stream),
            last_col,
            stream.looks,
            numbers,
        ).bytes by {
            if k < n {
                lemma_closed_front(before.rows, after.rows, k, col);
                assert(rows_closed(before.rows, k, col) == rows_closed(after.rows, k, col));
            } else {
                lemma_closed_front(before.rows, after.rows, (n - 1) as nat, col);
                assert(rows_closed(before.rows, (n - 1) as nat, col)
                    == rows_closed(after.rows, (n - 1) as nat, col));
                assert(after.rows[n - 1] == before.stream.row(cells.bytes));
            }
        }
    } else {
        assert forall|k: nat| k <= n implies #[trigger] rows_closed(
            Seq::empty(),
            k,
            crate::xlsb_cells::low32(last_col),
        ) == crate::xlsb_update_rows::value_rows(
            strings,
            rows,
            k,
            first_row(stream),
            last_col,
            stream.looks,
            numbers,
        ).bytes by {}
    }
}

proof fn lemma_closed_front(a: Seq<Seq<u8>>, b: Seq<Seq<u8>>, n: nat, last_col: u32)
    requires
        n <= a.len(),
        n <= b.len(),
        forall|k: int| 0 <= k < n ==> a[k] == b[k],
    ensures
        rows_closed(a, n, last_col) == rows_closed(b, n, last_col),
    decreases n,
{
    if n > 0 {
        lemma_closed_front(a, b, (n - 1) as nat, last_col);
    }
}

/// The rows that a file holds once all rows have come: those up to the last that
/// stays, with the number of the last column written into each.
pub open spec fn rows_in_file(header: Seq<u8>, taken: Streamed) -> Seq<u8> {
    header_closed(header, taken.stream.last_col()) + rows_closed(
        taken.rows,
        taken.stream.kept as nat,
        taken.stream.last_col(),
    )
}

/// The rows that a file holds once all rows have come are those that replacing them
/// at once renders, with the same shared strings.
pub proof fn lemma_same_rows(
    book: XlsbPackage,
    sheet: Seq<char>,
    rows: Seq<Seq<crate::formats::Cell>>,
    headers: Option<Seq<Seq<char>>>,
    bytes: Seq<u8>,
    ready: XlsbPackage,
    looks: Looks,
    numbers: NumberTable,
)
    ensures
        ({
            let begun = book.begun_with(sheet, headers, bytes, ready, looks);
            let taken = streamed(begun.book.strings, begun.stream, rows, rows.len(), numbers);
            let kept = crate::xlsx_package::kept_rows(rows);
            let columns = crate::xlsx_package::larger(
                crate::xlsx_package::widest(kept),
                crate::xlsx_package::header_width(headers),
            );
            let data = crate::xlsb_update_rows::sheet_rows(
                ready.strings,
                headers,
                kept,
                if columns > 0 {
                    columns - 1
                } else {
                    0
                },
                looks,
                numbers,
            );
            &&& taken.stream.last_col() == crate::xlsb_package::last_of(columns)
            &&& taken.stream.last_row() == crate::xlsb_package::last_of(
                kept.len() + crate::xlsx_package::header_rows(headers),
            )
            &&& data.strings == taken.strings
            &&& data.bytes == rows_in_file(begun.header, taken)
        }),
{
    let begun = book.begun_with(sheet, headers, bytes, ready, looks);
    let strings = begun.book.strings;
    let taken = streamed(strings, begun.stream, rows, rows.len(), numbers);
    let kept = crate::xlsx_package::kept_rows(rows);
    let columns = crate::xlsx_package::larger(
        crate::xlsx_package::widest(kept),
        crate::xlsx_package::header_width(headers),
    );
    let last_col = if columns > 0 {
        columns - 1
    } else {
        0
    };
    lemma_rows_counted(strings, begun.stream, rows, rows.len(), numbers);
    assert(rows.take(rows.len() as int) =~= rows);
    assert(taken.stream.kept == kept.len());
    lemma_rows_streamed(strings, begun.stream, rows, rows.len(), last_col, numbers);
    lemma_rows_front(
        strings,
        kept,
        rows,
        kept.len(),
        first_row(begun.stream),
        last_col,
        looks,
        numbers,
    );
    match headers {
        None => {},
        Some(texts) => {
            let cells = crate::xlsb_update_rows::header_cells(
                ready.strings,
                texts,
                texts.len(),
                looks,
            );
            crate::xlsb_update_rows::law_last_column_is_written_afterwards(
                0,
                0,
                last_col,
                cells.bytes,
            );
        },
    }
    let col = crate::xlsb_cells::low32(last_col);
    assert(rows_closed(taken.rows, kept.len(), col) == crate::xlsb_update_rows::value_rows(
        strings,
        rows,
        kept.len(),
        first_row(begun.stream),
        last_col,
        looks,
        numbers,
    ).bytes);
}

/// The bytes are whole records, none of them a dimension.
pub open spec fn are_records(bytes: Seq<u8>) -> bool {
    crate::xlsb_laws::records_from(bytes, 0, crate::xlsb_walk_laws::no_dimension())
}

proof fn lemma_text_record(strings: BinStrings, col: int, style: int, text: Seq<char>)
    requires
        crate::xlsb_update_rows::text_cell(strings, col, style, text).bytes.len() <= u32::MAX,
    ensures
        are_records(crate::xlsb_update_rows::text_cell(strings, col, style, text).bytes),
{
    let place = crate::xlsb_update_rows::cell_place(col, style);
    if strings.part is None {
        let units = crate::utf16::encode_units(text);
        crate::xlsb_walk_laws::lemma_one_record(
            6,
            place + crate::big_buffer::le32(crate::xlsb_cells::low32(units.len() as int))
                + crate::utf16::le_bytes(units),
        );
    } else {
        crate::xlsb_walk_laws::lemma_one_record(
            7,
            place + crate::big_buffer::le32(
                crate::xlsb_cells::low32(crate::string_table::index_for(strings.values, text)),
            ),
        );
    }
}

proof fn lemma_number_records(col: int, style: int, n: int, bits: u64, b: bool)
    ensures
        are_records(crate::xlsb_update_rows::rk_cell(col, style, n)),
        are_records(crate::xlsb_update_rows::double_cell(col, style, bits)),
        are_records(crate::xlsb_update_rows::bool_cell(col, style, b)),
{
    let place = crate::xlsb_update_rows::cell_place(col, style);
    let rk = place + crate::big_buffer::le32(crate::xlsb_cells::low32(4 * n + 2));
    let double = place + crate::big_buffer::le64(bits);
    let truth = place + seq![
        if b {
            1u8
        } else {
            0u8
        },
    ];
    crate::biff12::law_vlq_length(2);
    crate::biff12::law_vlq_length(4);
    crate::biff12::law_vlq_length(5);
    crate::biff12::law_vlq_length(rk.len() as u32);
    crate::biff12::law_vlq_length(double.len() as u32);
    crate::biff12::law_vlq_length(truth.len() as u32);
    crate::xlsb_walk_laws::lemma_one_record(2, rk);
    crate::xlsb_walk_laws::lemma_one_record(5, double);
    crate::xlsb_walk_laws::lemma_one_record(4, truth);
}

/// A cell is a record.
proof fn lemma_value_record(
    strings: BinStrings,
    value: crate::formats::Plain,
    col: int,
    looks: Looks,
    numbers: NumberTable,
)
    requires
        crate::xlsb_update_rows::value_cell(strings, value, col, looks, numbers).bytes.len()
            <= u32::MAX,
    ensures
        are_records(
            crate::xlsb_update_rows::value_cell(strings, value, col, looks, numbers).bytes,
        ),
{
    let style = crate::xlsx_styles::data_style(looks.cells, crate::xlsb_cells::low32(col) as int);
    match value {
        crate::formats::Plain::Empty => {
            lemma_text_record(strings, col, style, Seq::empty());
        },
        crate::formats::Plain::Text(s) => {
            lemma_text_record(strings, col, style, s);
        },
        crate::formats::Plain::Integer(n) => {
            lemma_number_records(
                col,
                style,
                n as int,
                crate::number::double_of_int(n as int) as u64,
                false,
            );
        },
        crate::formats::Plain::Number(n) => {
            let bits = numbers.bits(n);
            match crate::number::packed_integer(bits) {
                Some(i) => {
                    lemma_number_records(col, style, i, bits, false);
                },
                None => if crate::number::is_finite(bits) {
                    lemma_number_records(col, style, 0, bits, false);
                } else {
                    lemma_text_record(strings, col, style, numbers.display(n));
                },
            }
        },
        crate::formats::Plain::Boolean(b) => {
            lemma_number_records(col, style, 0, 0, b);
        },
        crate::formats::Plain::DateTime(d) => {
            let shown = if style > 0 {
                style
            } else {
                match looks.date {
                    Some(date) => date,
                    None => 0,
                }
            };
            lemma_number_records(col, shown, 0, numbers.bits(d), false);
        },
    }
}

/// The cells of a row are records.
proof fn lemma_cell_records(
    strings: BinStrings,
    row: Seq<crate::formats::Cell>,
    n: nat,
    looks: Looks,
    numbers: NumberTable,
)
    requires
        crate::xlsb_update_rows::value_cells(strings, row, n, looks, numbers).bytes.len()
            <= u32::MAX,
    ensures
        are_records(crate::xlsb_update_rows::value_cells(strings, row, n, looks, numbers).bytes),
    decreases n,
{
    if n > 0 {
        let before = crate::xlsb_update_rows::value_cells(
            strings,
            row,
            (n - 1) as nat,
            looks,
            numbers,
        );
        lemma_cell_records(strings, row, (n - 1) as nat, looks, numbers);
        if !(row[n - 1].value is Empty && row[n - 1].format is None) {
            let last = crate::xlsb_update_rows::value_cell(
                before.strings,
                row[n - 1].value,
                n - 1,
                looks,
                numbers,
            );
            lemma_value_record(before.strings, row[n - 1].value, n - 1, looks, numbers);
            crate::xlsb_walk_laws::lemma_records_concat(before.bytes, last.bytes);
        }
    }
}

proof fn lemma_header_records(
    strings: BinStrings,
    headers: Seq<Seq<char>>,
    n: nat,
    looks: Looks,
)
    requires
        crate::xlsb_update_rows::header_cells(strings, headers, n, looks).bytes.len() <= u32::MAX,
    ensures
        are_records(crate::xlsb_update_rows::header_cells(strings, headers, n, looks).bytes),
    decreases n,
{
    if n > 0 {
        let before = crate::xlsb_update_rows::header_cells(
            strings,
            headers,
            (n - 1) as nat,
            looks,
        );
        let style = crate::xlsx_styles::header_style(looks.cells, n - 1);
        lemma_header_records(strings, headers, (n - 1) as nat, looks);
        lemma_text_record(before.strings, n - 1, style, headers[n - 1]);
        crate::xlsb_walk_laws::lemma_records_concat(
            before.bytes,
            crate::xlsb_update_rows::text_cell(
                before.strings,
                n - 1,
                style,
                headers[n - 1],
            ).bytes,
        );
    }
}

/// A row is a row header and its cells.
proof fn lemma_row_records(number: int, last_col: int, cells: Seq<u8>)
    requires
        crate::xlsb_update_rows::row_bytes(number, last_col, cells).len() <= u32::MAX,
        are_records(cells),
    ensures
        are_records(crate::xlsb_update_rows::row_bytes(number, last_col, cells)),
{
    let head = crate::xlsb_cells::row_header(crate::xlsb_cells::low32(number), 0, last_col);
    assert(head.len() == 27);
    assert(head[0] == 0 && head[1] == 25);
    assert(crate::biff12::vlq_at(head, 0, 0) == Ok::<(nat, int), crate::biff12::VlqFault>(
        (0, 1),
    ));
    assert(crate::biff12::vlq_at(head, 1, 0) == Ok::<(nat, int), crate::biff12::VlqFault>(
        (25, 2),
    ));
    assert(crate::xlsb_laws::records_from(head, 27, crate::xlsb_walk_laws::no_dimension()));
    assert(are_records(head));
    crate::xlsb_walk_laws::lemma_records_concat(head, cells);
}

/// The rows of a sheet are records.
proof fn lemma_rows_records(
    strings: BinStrings,
    rows: Seq<Seq<crate::formats::Cell>>,
    n: nat,
    first: int,
    last_col: int,
    looks: Looks,
    numbers: NumberTable,
)
    requires
        crate::xlsb_update_rows::value_rows(
            strings,
            rows,
            n,
            first,
            last_col,
            looks,
            numbers,
        ).bytes.len() <= u32::MAX,
    ensures
        are_records(
            crate::xlsb_update_rows::value_rows(
                strings,
                rows,
                n,
                first,
                last_col,
                looks,
                numbers,
            ).bytes,
        ),
    decreases n,
{
    if n > 0 {
        let m = (n - 1) as nat;
        let before = crate::xlsb_update_rows::value_rows(
            strings,
            rows,
            m,
            first,
            last_col,
            looks,
            numbers,
        );
        let row = rows[n - 1];
        let last = crate::xlsb_update_rows::value_cells(
            before.strings,
            row,
            row.len(),
            looks,
            numbers,
        );
        lemma_rows_records(strings, rows, m, first, last_col, looks, numbers);
        lemma_cell_records(before.strings, row, row.len(), looks, numbers);
        lemma_row_records(first + n - 1, last_col, last.bytes);
        crate::xlsb_walk_laws::lemma_records_concat(
            before.bytes,
            crate::xlsb_update_rows::row_bytes(first + n - 1, last_col, last.bytes),
        );
    }
}

/// New rows of fewer than 2^32 bytes are whole records, none of them a dimension.
pub proof fn lemma_sheet_records(
    strings: BinStrings,
    headers: Option<Seq<Seq<char>>>,
    rows: Seq<Seq<crate::formats::Cell>>,
    last_col: int,
    looks: Looks,
    numbers: NumberTable,
)
    requires
        crate::xlsb_update_rows::sheet_rows(
            strings,
            headers,
            rows,
            last_col,
            looks,
            numbers,
        ).bytes.len() <= u32::MAX,
    ensures
        are_records(
            crate::xlsb_update_rows::sheet_rows(
                strings,
                headers,
                rows,
                last_col,
                looks,
                numbers,
            ).bytes,
        ),
{
    let header = crate::xlsb_update_rows::header_row(strings, headers, last_col, looks);
    let first = if headers is Some {
        1int
    } else {
        0
    };
    if let Some(h) = headers {
        lemma_header_records(strings, h, h.len(), looks);
        lemma_row_records(
            0,
            last_col,
            crate::xlsb_update_rows::header_cells(strings, h, h.len(), looks).bytes,
        );
    }
    lemma_rows_records(
        header.strings,
        rows,
        rows.len(),
        first,
        last_col,
        looks,
        numbers,
    );
    crate::xlsb_walk_laws::lemma_records_concat(
        header.bytes,
        crate::xlsb_update_rows::value_rows(
            header.strings,
            rows,
            rows.len(),
            first,
            last_col,
            looks,
            numbers,
        ).bytes,
    );
}

/// Replacing the rows of a sheet one by one leads to what replacing them at once
/// leads to: the file that the rows go into holds the same worksheet, the shared
/// strings are the same, and the pivot caches are told of the same last row and
/// column. The worksheet has its filter ranges behind its rows and says in front of
/// them how far they reach; or it says so behind them or not at all, and the new
/// rows have fewer than 2^32 bytes.
pub proof fn law_rows_one_by_one_are_rows_at_once(
    book: XlsbPackage,
    sheet: Seq<char>,
    rows: Seq<Seq<crate::formats::Cell>>,
    headers: Option<Seq<Seq<char>>>,
    fallback: StyleFallback,
    numbers: NumberTable,
)
    requires
        book.begun(sheet, headers, fallback) matches Ok(begun) && {
            let taken = streamed(begun.book.strings, begun.stream, rows, rows.len(), numbers);
            let new = rows_in_file(begun.header, taken);
            &&& is_in_order(begun.stream.bytes) || is_apart(begun.stream.bytes) && new.len()
                <= u32::MAX
            &&& begun.stream.bytes.len() + new.len() <= usize::MAX
        },
    ensures
        ({
            let begun = book.begun(sheet, headers, fallback)->Ok_0;
            let taken = streamed(begun.book.strings, begun.stream, rows, rows.len(), numbers);
            let part = assembled(
                begun.stream.bytes,
                rows_in_file(begun.header, taken),
                taken.stream.last_row(),
                taken.stream.last_col(),
            );
            let filled = XlsbPackage { strings: taken.strings, ..begun.book };
            book.replaced(sheet, rows, headers, fallback, numbers) == filled.put(
                begun.stream.path,
                part,
            ).settled(sheet, taken.stream.last_row(), taken.stream.last_col())
        }),
{
    let begun = book.begun(sheet, headers, fallback)->Ok_0;
    let bytes = begun.stream.bytes;
    let ready = book.released(bytes)->Ok_0;
    let looks = ready.looks(bytes, fallback)->Ok_0;
    let taken = streamed(begun.book.strings, begun.stream, rows, rows.len(), numbers);
    lemma_same_rows(book, sheet, rows, headers, bytes, ready, looks, numbers);
    if !is_in_order(bytes) {
        let kept = crate::xlsx_package::kept_rows(rows);
        let columns = crate::xlsx_package::larger(
            crate::xlsx_package::widest(kept),
            crate::xlsx_package::header_width(headers),
        );
        lemma_sheet_records(
            ready.strings,
            headers,
            kept,
            if columns > 0 {
                columns - 1
            } else {
                0
            },
            looks,
            numbers,
        );
    }
    law_assembled_sheet_is_the_patched_one(
        bytes,
        rows_in_file(begun.header, taken),
        taken.stream.last_row(),
        taken.stream.last_col(),
    );
    assert(XlsbPackage { strings: taken.strings, ..begun.book } =~= XlsbPackage {
        strings: taken.strings,
        ..ready
    });
}

} // verus!
