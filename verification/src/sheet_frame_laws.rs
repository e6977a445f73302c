//! What stands around the rows of a sheet, and which rows are kept.

use vstd::prelude::*;
use crate::formats::{Cell, Plain};
use crate::xlsb_templates::Templates;

verus! {

/// The first sheet of an XLSX workbook is selected, and no other: their views differ in
/// this attribute only.
pub proof fn law_first_sheet_is_selected(has_headers: bool)
    ensures
        ({
            let first = crate::xlsx_cells::sheet_views(has_headers, true);
            let other = crate::xlsx_cells::sheet_views(has_headers, false);
            let at = "<sheetViews><sheetView"@.len() as int;
            let n = " tabSelected=\"1\""@.len() as int;
            &&& first.subrange(at, at + n) == " tabSelected=\"1\""@
            &&& first.take(at) == other.take(at)
            &&& first.skip(at + n) == other.skip(at)
        }),
{
    let first = crate::xlsx_cells::sheet_views(has_headers, true);
    let other = crate::xlsx_cells::sheet_views(has_headers, false);
    let a = "<sheetViews><sheetView"@;
    let b = " tabSelected=\"1\""@;
    let at = a.len() as int;
    let n = b.len() as int;
    assert(first.subrange(at, at + n) =~= b);
    assert(first.take(at) =~= other.take(at));
    assert(first.skip(at + n) =~= other.skip(at));
}

/// A header row is frozen, and nothing is where there is none.
pub proof fn law_header_row_is_frozen(is_first: bool)
    ensures
        ({
            let view = crate::xlsx_cells::sheet_views(true, is_first);
            let bare = crate::xlsx_cells::sheet_views(false, is_first);
            let front = "<sheetViews><sheetView"@ + (if is_first {
                " tabSelected=\"1\""@
            } else {
                Seq::empty()
            }) + " workbookViewId=\"0\""@;
            let frozen = "><pane ySplit=\"1\" topLeftCell=\"A2\""@
                + " activePane=\"bottomLeft\" state=\"frozen\" />"@;
            &&& view.take((front.len() + frozen.len()) as int) == front + frozen
            &&& bare.take((front.len() + 2) as int) == front + "/>"@
        }),
{
    reveal_strlit("/>");
    let view = crate::xlsx_cells::sheet_views(true, is_first);
    let bare = crate::xlsx_cells::sheet_views(false, is_first);
    let front = "<sheetViews><sheetView"@ + (if is_first {
        " tabSelected=\"1\""@
    } else {
        Seq::empty()
    }) + " workbookViewId=\"0\""@;
    let frozen = "><pane ySplit=\"1\" topLeftCell=\"A2\""@
        + " activePane=\"bottomLeft\" state=\"frozen\" />"@;
    assert(view.take((front.len() + frozen.len()) as int) =~= front + frozen);
    assert(bare.take((front.len() + 2) as int) =~= front + "/>"@);
}

/// The first sheet of an XLSB workbook is selected, and no other: their parts differ in
/// one byte only.
pub proof fn law_first_binary_sheet_is_selected(
    t: Templates,
    widths: Seq<int>,
    has_headers: bool,
    i: int,
)
    requires
        t.sheet1_bytes.len() >= 290,
        0 <= i,
    ensures
        ({
            let first = crate::xlsb_writer::sheet_head(t, widths, has_headers, true);
            let other = crate::xlsb_writer::sheet_head(t, widths, has_headers, false);
            &&& first.len() == other.len()
            &&& i < first.len() && i != 54 ==> first[i] == other[i]
            &&& first[54] == t.sheet1_bytes[54]
            &&& other[54] == 0x9c
        }),
{
    reveal(crate::xlsb_writer::sheet_head);
}

/// A header row of an XLSB sheet is frozen, by what the template has for it, and
/// nothing is where there is none: this is all that headers change in front of the rows.
pub proof fn law_binary_header_row_is_frozen(t: Templates, widths: Seq<int>, is_first: bool)
    requires
        t.sheet1_bytes.len() >= 290,
    ensures
        ({
            let with = crate::xlsb_writer::sheet_head(t, widths, true, is_first);
            let without = crate::xlsb_writer::sheet_head(t, widths, false, is_first);
            let n = t.sticky_header_a1.len() as int;
            &&& with.take(84) == without.take(84)
            &&& with.subrange(84, 84 + n) == t.sticky_header_a1
            &&& with.skip(84 + n) == without.skip(84)
        }),
{
    reveal(crate::xlsb_writer::sheet_head);
    let with = crate::xlsb_writer::sheet_head(t, widths, true, is_first);
    let without = crate::xlsb_writer::sheet_head(t, widths, false, is_first);
    let n = t.sticky_header_a1.len() as int;
    assert(with.take(84) =~= without.take(84));
    assert(with.subrange(84, 84 + n) =~= t.sticky_header_a1);
    assert(with.skip(84 + n) =~= without.skip(84));
}

/// The record of a column (0x3c) in an XLSB sheet says which column it is, and its width
/// in parts of 256 of a character: whole characters, 255 at most, and ten where the
/// width is not known.
pub proof fn law_column_record_tells_the_width(i: int, width: int)
    requires
        0 <= i < 16_384,
    ensures
        ({
            let bytes = crate::xlsb_writer::column_record(i, width);
            let said = bytes[11] + 0x100 * bytes[12] + 0x1_0000 * bytes[13] + 0x100_0000
                * bytes[14];
            &&& bytes[1] == 0x3c
            &&& bytes[2] == 18
            &&& bytes.len() == 3 + 17
            &&& bytes[3] + 0x100 * bytes[4] + 0x1_0000 * bytes[5] + 0x100_0000 * bytes[6] == i
            &&& bytes[7] + 0x100 * bytes[8] + 0x1_0000 * bytes[9] + 0x100_0000 * bytes[10] == i
            &&& width <= 0 ==> said == 256 * 10
            &&& 0 < width < 25_600 ==> said % 256 == 0 && 100 * (said / 256) <= width < 100 * (said
                / 256 + 1)
            &&& width >= 25_600 ==> said == 256 * 255
        }),
{
    let bytes = crate::xlsb_writer::column_record(i, width);
    let b = crate::big_buffer::le32(crate::xlsb_cells::low32(i));
    assert(b[0] == i % 256 && b[1] == i / 256 && b[2] == 0 && b[3] == 0);
    assert(bytes[3] == b[0] && bytes[4] == b[1] && bytes[5] == b[2] && bytes[6] == b[3]);
    assert(bytes[7] == b[0] && bytes[8] == b[1] && bytes[9] == b[2] && bytes[10] == b[3]);
    assert(bytes[11] == 0 && bytes[13] == 0 && bytes[14] == 0);
    assert(bytes[12] == crate::xlsb_writer::width_byte(width));
}

/// The filter of an XLSB sheet covers it from the first cell to the last row and the
/// last column; a sheet without a filter has nothing of it.
pub proof fn law_binary_filter_covers_the_sheet(t: Templates, rows: int, columns: int)
    requires
        t.sheet1_bytes.len() >= 290,
        0 < rows <= u32::MAX,
        0 < columns <= u32::MAX,
    ensures
        ({
            let tail = crate::xlsb_writer::sheet_tail(t, true, rows, columns);
            let bare = crate::xlsb_writer::sheet_tail(t, false, rows, columns);
            let at = 72 + t.autofilter_start.len() as int;
            let end = at + 16 + t.autofilter_end.len() as int;
            &&& tail.take(72) == bare.take(72)
            &&& tail.skip(end) == bare.skip(72)
            &&& tail[at] + tail[at + 1] + tail[at + 2] + tail[at + 3] == 0
            &&& tail[at + 4] + 0x100 * tail[at + 5] + 0x1_0000 * tail[at + 6] + 0x100_0000
                * tail[at + 7] == rows - 1
            &&& tail[at + 8] + tail[at + 9] + tail[at + 10] + tail[at + 11] == 0
            &&& tail[at + 12] + 0x100 * tail[at + 13] + 0x1_0000 * tail[at + 14] + 0x100_0000
                * tail[at + 15] == columns - 1
        }),
{
    reveal(crate::xlsb_writer::sheet_tail);
    let tail = crate::xlsb_writer::sheet_tail(t, true, rows, columns);
    let bare = crate::xlsb_writer::sheet_tail(t, false, rows, columns);
    let at = 72 + t.autofilter_start.len() as int;
    let end = at + 16 + t.autofilter_end.len() as int;
    let r = crate::big_buffer::le32(crate::xlsb_cells::low32(rows - 1));
    let c = crate::big_buffer::le32(crate::xlsb_cells::low32(columns - 1));
    let z = crate::big_buffer::le32(0);
    assert(z[0] == 0 && z[1] == 0 && z[2] == 0 && z[3] == 0);
    lemma_le32_sum((rows - 1) as u32);
    lemma_le32_sum((columns - 1) as u32);
    assert(tail.take(72) =~= bare.take(72));
    assert(tail.skip(end) =~= bare.skip(72));
    assert(tail[at] == z[0] && tail[at + 1] == z[1] && tail[at + 2] == z[2] && tail[at + 3]
        == z[3]);
    assert(tail[at + 4] == r[0] && tail[at + 5] == r[1] && tail[at + 6] == r[2] && tail[at + 7]
        == r[3]);
    assert(tail[at + 8] == z[0] && tail[at + 9] == z[1] && tail[at + 10] == z[2] && tail[at + 11]
        == z[3]);
    assert(tail[at + 12] == c[0] && tail[at + 13] == c[1] && tail[at + 14] == c[2] && tail[at + 15]
        == c[3]);
}

proof fn lemma_le32_sum(n: u32)
    ensures
        ({
            let b = crate::big_buffer::le32(n);
            b[0] + 0x100 * b[1] + 0x1_0000 * b[2] + 0x100_0000 * b[3] == n
        }),
{
    assert(n == n % 256 + 0x100 * (n / 0x100 % 256) + 0x1_0000 * (n / 0x1_0000 % 256) + 0x100_0000
        * (n / 0x100_0000));
}

/// The rows that are kept are the first ones, up to the last that has a cell with a
/// value or a format. Rows in between stay, empty or not.
pub proof fn law_empty_rows_at_the_end_are_left_out(rows: Seq<Seq<Cell>>)
    ensures
        ({
            let kept = crate::xlsx_package::kept_rows(rows);
            &&& kept.len() <= rows.len()
            &&& kept == rows.take(kept.len() as int)
            &&& forall|r: int, c: int|
                kept.len() <= r < rows.len() && 0 <= c < rows[r].len() ==> (
                #[trigger] rows[r][c]).value == Plain::Empty && rows[r][c].format is None
            &&& kept.len() > 0 ==> exists|c: int|
                0 <= c < kept.last().len() && !((#[trigger] kept.last()[c]).value == Plain::Empty
                    && kept.last()[c].format is None)
        }),
    decreases rows.len(),
{
    let kept = crate::xlsx_package::kept_rows(rows);
    if rows.len() > 0 && crate::xlsx_package::is_blank(rows.last()) {
        let some = rows.drop_last();
        law_empty_rows_at_the_end_are_left_out(some);
        assert(kept =~= rows.take(kept.len() as int));
        assert forall|r: int, c: int|
            kept.len() <= r < rows.len() && 0 <= c < rows[r].len() implies (
        #[trigger] rows[r][c]).value == Plain::Empty && rows[r][c].format is None by {
            if r < some.len() {
                assert(some[r][c] == rows[r][c]);
            } else {
                assert(rows.last()[c] == rows[r][c]);
            }
        }
    } else {
        assert(rows.take(rows.len() as int) =~= rows);
        if rows.len() > 0 {
            let c = choose|c: int|
                0 <= c < rows.last().len() && !((#[trigger] rows.last()[c]).value is Empty
                    && rows.last()[c].format is None);
            assert(kept.last()[c] == rows.last()[c]);
        }
    }
}

/// The width of rows is the length of the longest of them.
pub proof fn law_widest_row(rows: Seq<Seq<Cell>>)
    ensures
        ({
            let width = crate::xlsx_package::widest(rows);
            &&& forall|r: int| 0 <= r < rows.len() ==> (#[trigger] rows[r]).len() <= width
            &&& rows.len() == 0 ==> width == 0
            &&& rows.len() > 0 ==> exists|r: int|
                0 <= r < rows.len() && (#[trigger] rows[r]).len() == width
        }),
    decreases rows.len(),
{
    if rows.len() > 0 {
        let some = rows.drop_last();
        law_widest_row(some);
        let width = crate::xlsx_package::widest(rows);
        assert forall|r: int| 0 <= r < rows.len() implies (#[trigger] rows[r]).len() <= width by {
            if r < some.len() {
                assert(some[r].len() <= crate::xlsx_package::widest(some));
            }
        }
        if width == rows.last().len() {
            assert(rows[rows.len() - 1].len() == width);
        } else {
            let r = choose|r: int|
                0 <= r < some.len() && (#[trigger] some[r]).len() == crate::xlsx_package::widest(
                    some,
                );
            assert(rows[r].len() == width);
        }
    }
}

/// A sheet is found by its name, as it is written: the first that has it, and none
/// where no sheet has it.
pub proof fn law_sheet_is_found_by_name(
    book: crate::xlsx_reader::XlsxBookState,
    name: Seq<char>,
    from: int,
)
    requires
        0 <= from,
    ensures
        match book.sheet_named(name, from) {
            Some(i) => {
                &&& from <= i < book.sheets.len()
                &&& book.sheets[i].name == name
                &&& forall|j: int| from <= j < i ==> (#[trigger] book.sheets[j]).name != name
            },
            None => forall|j: int|
                from <= j < book.sheets.len() ==> (#[trigger] book.sheets[j]).name != name,
        },
    decreases book.sheets.len() - from,
{
    if from < book.sheets.len() {
        law_sheet_is_found_by_name(book, name, from + 1);
    }
}

} // verus!
