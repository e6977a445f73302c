//! What the XLSX reader makes of a worksheet whose rows have been replaced.

use vstd::prelude::*;
use crate::formats::Cell;
use crate::markup::Piece;
use crate::number::NumberTable;
use crate::xlsx_package::{StyleFallback, XlsxPackage};
use crate::xlsx_patch::{Edit, Layout};
use crate::xlsx_read_laws::Doubles;
use crate::xlsx_reader::{Progress, XlsxBookState};
use crate::xlsx_replaced_markup::SheetMarkup;
use crate::xlsx_update_read::NewSheet;

verus! {

/// Rows between their tags close what they open.
proof fn lemma_middle_nests(m: SheetMarkup, open: Seq<Seq<char>>)
    requires
        m.is_tidy(),
    ensures
        crate::markup::nested(open, m.middle()) == Some(open),
{
    match m.rows {
        Some(rows) => {
            let first = crate::xlsx_replaced_markup::rows_open();
            let last = crate::xlsx_replaced_markup::rows_close();
            let inside = open.push("sheetData"@);
            assert(rows == m.inner());
            crate::markup::lemma_nested_concat(open, seq![first], rows);
            crate::markup::lemma_nested_concat(open, seq![first] + rows, seq![last]);
            crate::markup::lemma_nested_one(open, first);
            crate::markup::lemma_nested_one(inside, last);
            assert(crate::markup::nested(inside, rows) == Some(inside));
            assert(inside.drop_last() =~= open);
        },
        None => {
            crate::markup::lemma_nested_one(open, m.middle()[0]);
        },
    }
}

/// New rows make a document of what stands around them.
#[verifier::spinoff_prover]
proof fn lemma_document(m: SheetMarkup, dim: Seq<char>, filtered: bool, lines: Seq<Piece>)
    requires
        m.is_tidy(),
        crate::markup::is_block(lines),
        crate::markup::is_value(dim),
        crate::xlsx_sheet_markup::has_no_bounds(dim),
    ensures
        crate::markup::is_document(m.front(dim) + lines + m.back(dim, filtered)),
        crate::xlsx_read_laws::is_quiet(m.front(dim)),
        crate::xlsx_read_laws::is_quiet(m.back(dim, filtered)),
{
    let head = crate::xlsx_replaced_markup::dimensioned(m.head, dim);
    let tail = if filtered {
        crate::xlsx_replaced_markup::with_first_range(m.tail, "autoFilter"@, dim)
    } else {
        m.tail
    };
    let first = crate::xlsx_replaced_markup::rows_open();
    let last = crate::xlsx_replaced_markup::rows_close();
    let rows = crate::markup::element("sheetData"@, Seq::empty(), lines);
    let all = m.front(dim) + lines + m.back(dim, filtered);
    crate::xlsx_replaced_markup::lemma_rows_pieces(m);
    assert(all =~= head + rows + tail);
    assert(m.pieces() =~= m.head + (m.middle() + m.tail));
    crate::xlsx_replaced_markup::lemma_apart_parts(m.head, m.middle() + m.tail);
    crate::xlsx_replaced_markup::lemma_apart_parts(m.head + m.middle(), m.tail);
    crate::xlsx_replaced_markup::lemma_dimension_nests(m.head, dim);
    crate::xlsx_replaced_markup::lemma_range_nests(m.tail, "autoFilter"@, dim);
    crate::xlsx_replaced_markup::lemma_dimensioned_outside(m.head, dim);
    crate::xlsx_replaced_markup::lemma_ranged_outside(m.tail, "autoFilter"@, dim);
    crate::xlsx_markup::lemma_no_attributes();
    crate::xlsx_frame::lemma_rows_tag();
    crate::markup::lemma_block_element("sheetData"@, Seq::empty(), lines);
    assert(rows[0] == first);
    assert(rows.last() == last);
    crate::xlsx_replaced_markup::lemma_apart_joined(head, rows);
    crate::xlsx_replaced_markup::lemma_apart_joined(head + rows, tail);
    lemma_nests(m, head, rows, tail);
    lemma_sound(head, rows, tail);
    crate::xlsx_replaced_markup::lemma_first(m.head, 0, "dimension"@);
    crate::xlsx_replaced_markup::lemma_first(m.head, 0, "worksheet"@);
    assert(m.head.len() > 0);
    assert(m.pieces()[0] == m.head[0]);
    assert(all[0] == head[0]);
    crate::xlsx_replaced_markup::lemma_outside(head);
    crate::xlsx_replaced_markup::lemma_outside(tail);
    crate::xlsx_frame::lemma_quiet_one(first);
    crate::xlsx_frame::lemma_quiet_one(last);
    crate::xlsx_frame::lemma_quiet_concat(head, seq![first]);
    crate::xlsx_frame::lemma_quiet_concat(seq![last], tail);
}

proof fn lemma_sound(head: Seq<Piece>, rows: Seq<Piece>, tail: Seq<Piece>)
    requires
        crate::xlsx_replaced_markup::are_outside(head),
        crate::markup::is_block(rows),
        crate::xlsx_replaced_markup::are_outside(tail),
    ensures
        forall|i: int|
            0 <= i < (head + rows + tail).len() ==> (#[trigger] (head + rows
                + tail)[i]).is_sound(),
{
    let all = head + rows + tail;
    assert forall|i: int| 0 <= i < all.len() implies (#[trigger] all[i]).is_sound() by {
        if i < head.len() {
            assert(all[i] == head[i]);
        } else if i < head.len() + rows.len() {
            assert(all[i] == rows[i - head.len()]);
        } else {
            assert(all[i] == tail[i - head.len() - rows.len()]);
        }
    }
}

proof fn lemma_nests(m: SheetMarkup, head: Seq<Piece>, rows: Seq<Piece>, tail: Seq<Piece>)
    requires
        m.is_tidy(),
        crate::markup::is_block(rows),
        forall|open: Seq<Seq<char>>| #[trigger]
            crate::markup::nested(open, head) == crate::markup::nested(open, m.head),
        forall|open: Seq<Seq<char>>| #[trigger]
            crate::markup::nested(open, tail) == crate::markup::nested(open, m.tail),
    ensures
        crate::markup::nested(Seq::empty(), head + rows + tail) is Some,
{
    let none = Seq::<Seq<char>>::empty();
    crate::markup::lemma_nested_concat(none, m.head, m.middle());
    crate::markup::lemma_nested_concat(none, m.head + m.middle(), m.tail);
    crate::markup::lemma_nested_concat(none, head, rows);
    crate::markup::lemma_nested_concat(none, head + rows, tail);
    assert(crate::markup::nested(none, head) == crate::markup::nested(none, m.head));
    let open = crate::markup::nested(none, m.head)->0;
    lemma_middle_nests(m, open);
    assert(crate::markup::nested(open, rows) == Some(open));
    assert(crate::markup::nested(open, tail) == crate::markup::nested(open, m.tail));
}

/// The text of new rows between what stands around them.
proof fn lemma_joined_text(m: SheetMarkup, dim: Seq<char>, lines: Seq<Piece>)
    ensures
        crate::markup::written(m.front(dim)) == crate::markup::written(
            crate::xlsx_replaced_markup::dimensioned(m.head, dim),
        ) + "<sheetData>"@,
        crate::markup::written(
            m.front(dim) + (lines + seq![crate::xlsx_replaced_markup::rows_close()]) + m.tail,
        ) == crate::markup::written(crate::xlsx_replaced_markup::dimensioned(m.head, dim))
            + "<sheetData>"@ + crate::markup::written(lines) + "</sheetData>"@
            + crate::markup::written(m.tail),
{
    let head = crate::xlsx_replaced_markup::dimensioned(m.head, dim);
    let first = crate::xlsx_replaced_markup::rows_open();
    let last = crate::xlsx_replaced_markup::rows_close();
    crate::xlsx_replaced_markup::lemma_rows_pieces(m);
    crate::markup::lemma_written_concat(head, seq![first]);
    crate::markup::lemma_written_one(first);
    crate::markup::lemma_written_one(last);
    crate::markup::lemma_written_concat(lines, seq![last]);
    crate::markup::lemma_written_concat(m.front(dim), lines + seq![last]);
    crate::markup::lemma_written_concat(m.front(dim) + (lines + seq![last]), m.tail);
    let w = crate::markup::written(head);
    let d = crate::markup::written(lines);
    let t = crate::markup::written(m.tail);
    assert(w + "<sheetData>"@ + (d + "</sheetData>"@) + t =~= w + "<sheetData>"@ + d
        + "</sheetData>"@ + t);
}

/// A worksheet that is plain markup around its rows is so after its rows have been
/// replaced by plain markup without filters: it is what stood in front of the rows,
/// with the dimension set, the new rows between the tags of the rows, and what stood
/// behind them, with the range of the filter set where there are new rows. It is a
/// document, and no row tags stand outside of the new rows.
pub proof fn law_patched_sheet_is_markup(
    m: SheetMarkup,
    lines: Seq<Piece>,
    rows: int,
    columns: int,
)
    requires
        m.is_tidy(),
        crate::markup::is_block(lines),
        crate::xlsx_sheet_markup::all_clear(lines),
        crate::xlsx_sheet_markup::has_no_tag(lines, "autoFilter"@),
    ensures
        ({
            let dim = crate::xlsx_patch::range_ref(rows, columns);
            let front = m.front(dim);
            let back = m.back(dim, rows > 0 && columns > 0);
            &&& crate::xlsx_patch::patched_sheet(
                crate::markup::written(m.pieces()),
                crate::markup::written(lines),
                rows,
                columns,
            ) == Ok::<Seq<char>, Seq<char>>(crate::markup::written(front + lines + back))
            &&& crate::markup::is_document(front + lines + back)
            &&& crate::xlsx_read_laws::is_quiet(front)
            &&& crate::xlsx_read_laws::is_quiet(back)
        }),
{
    let dim = crate::xlsx_patch::range_ref(rows, columns);
    let filtered = rows > 0 && columns > 0;
    let head = crate::xlsx_replaced_markup::dimensioned(m.head, dim);
    let last = crate::xlsx_replaced_markup::rows_close();
    let inside = lines + seq![last];
    let front = m.front(dim);
    crate::xlsx_range_markup::lemma_dim(rows, columns);
    lemma_document(m, dim, filtered, lines);
    crate::xlsx_replaced_markup::lemma_dimension_set(m, dim);
    crate::xlsx_replaced_markup::lemma_dimensioned_outside(m.head, dim);
    crate::xlsx_replaced_markup::lemma_outside(head);
    crate::xlsx_replaced_markup::lemma_rows_filled(head, m, crate::markup::written(lines));
    lemma_joined_text(m, dim, lines);
    crate::xlsx_replaced_markup::lemma_rows_pieces(m);
    assert forall|i: int| 0 <= i < front.len() implies (#[trigger] front[i]).is_sound()
        && crate::xlsx_sheet_markup::is_clear(front[i]) && !crate::xlsx_sheet_markup::is_tag(
        front[i],
        "autoFilter"@,
    ) by {
        if i < head.len() {
            assert(front[i] == head[i]);
        } else {
            assert(front[i] == crate::xlsx_replaced_markup::rows_open());
        }
    }
    assert forall|i: int| 0 <= i < inside.len() implies (#[trigger] inside[i]).is_sound()
        && crate::xlsx_sheet_markup::is_clear(inside[i]) && !crate::xlsx_sheet_markup::is_tag(
        inside[i],
        "autoFilter"@,
    ) by {
        if i < lines.len() {
            assert(inside[i] == lines[i]);
        } else {
            assert(inside[i] == last);
        }
    }
    if filtered {
        crate::xlsx_replaced_markup::lemma_filter_set(front, inside, m.tail, dim);
        let tail = crate::xlsx_replaced_markup::with_first_range(m.tail, "autoFilter"@, dim);
        assert(front + inside + tail =~= front + lines + m.back(dim, filtered));
    } else {
        assert(front + inside + m.tail =~= front + lines + m.back(dim, filtered));
    }
}

/// The new rows of an update.
pub open spec fn new_sheet(
    book: XlsxPackage,
    sheet: Seq<char>,
    rows: Seq<Seq<Cell>>,
    headers: Option<Seq<Seq<char>>>,
    fallback: StyleFallback,
    numbers: NumberTable,
) -> NewSheet {
    let xml = book.sheet_text(sheet)->Ok_0;
    let ready = book.released(xml)->Ok_0;
    NewSheet {
        strings: ready.strings,
        headers,
        rows: crate::xlsx_package::kept_rows(rows),
        looks: ready.looks(xml, fallback)->Ok_0,
        numbers,
        numbered: false,
    }
}

/// The pieces of the worksheet that an update leaves.
pub open spec fn updated_pieces(m: SheetMarkup, new: NewSheet) -> Seq<Piece> {
    let columns = crate::xlsx_package::larger(
        crate::xlsx_package::widest(new.rows),
        crate::xlsx_package::header_width(new.headers),
    );
    let dim = crate::xlsx_patch::range_ref(new.lines(), columns);
    m.front(dim) + new.pieces() + m.back(dim, new.lines() > 0 && columns > 0)
}

/// A worksheet whose rows have been replaced reads back: the part that the update
/// leaves in the workbook is a document of plain markup; of its events, every read
/// gives the next of the new lines, first the headers and then the rows without the
/// empty ones at their end, each as its cells that are not empty with the values that
/// [`value_back`](crate::xlsx_update_read::value_back) says, and behind the last line
/// the sheet ends. The worksheet is plain markup around its rows, and it is neither
/// the part of the shared strings nor of a pivot cache or table.
pub proof fn law_updated_sheet_reads_back(
    book: XlsxPackage,
    sheet: Seq<char>,
    rows: Seq<Seq<Cell>>,
    headers: Option<Seq<Seq<char>>>,
    fallback: StyleFallback,
    numbers: NumberTable,
    m: SheetMarkup,
    reader: XlsxBookState,
    index: int,
    doubles: Doubles,
    n: nat,
)
    requires
        book.replaced(sheet, rows, headers, fallback, numbers).fault is None,
        book.sheet_text(sheet) == Ok::<Seq<char>, crate::xlsx_package::Fault>(
            crate::markup::written(m.pieces()),
        ),
        m.is_tidy(),
        ({
            let new = new_sheet(book, sheet, rows, headers, fallback, numbers);
            let path = book.sheets.paths[sheet];
            &&& path != "xl/sharedStrings.xml"@
            &&& forall|i: int|
                0 <= i < book.caches.len() ==> (#[trigger] book.caches[i]).path != path
            &&& forall|i: int| 0 <= i < book.tables.len() ==> #[trigger] book.tables[i] != path
            &&& new.fits()
            &&& new.is_readable(reader.info(), doubles)
            &&& n <= new.lines()
        }),
        0 <= index,
    ensures
        ({
            let done = book.replaced(sheet, rows, headers, fallback, numbers).book;
            let new = new_sheet(book, sheet, rows, headers, fallback, numbers);
            let pieces = updated_pieces(m, new);
            let start = reader.begun(index, crate::markup::items(pieces));
            let before = start.after_reads(doubles, n);
            let (after, read) = before.row_read(doubles);
            &&& done.parts.content(book.sheets.paths[sheet]) == Some(
                vstd::utf8::encode_utf8(crate::markup::written(pieces)),
            )
            &&& crate::markup::is_document(pieces)
            &&& if n < new.lines() {
                &&& read == Ok::<Progress, Seq<char>>(Progress::Row)
                &&& after.scan.row == new.line_back(reader.info(), doubles, n as int)
            } else {
                &&& read == Ok::<Progress, Seq<char>>(Progress::End)
                &&& after.scan.row == Seq::<Cell>::empty()
            }
        }),
{
    let new = new_sheet(book, sheet, rows, headers, fallback, numbers);
    let columns = crate::xlsx_package::larger(
        crate::xlsx_package::widest(new.rows),
        crate::xlsx_package::header_width(headers),
    );
    let dim = crate::xlsx_patch::range_ref(new.lines(), columns);
    crate::xlsx_row_markup::lemma_new_rows_inner(new);
    crate::xlsx_update_read::law_new_rows_are_markup(new);
    law_patched_sheet_is_markup(m, new.pieces(), new.lines(), columns);
    lemma_part_placed(book, sheet, rows, headers, fallback, numbers);
    crate::xlsx_update_read::law_replaced_rows_read_back(
        reader,
        index,
        new,
        m.front(dim),
        m.back(dim, new.lines() > 0 && columns > 0),
        doubles,
        n,
    );
}

/// An update that succeeds leaves the new worksheet in the workbook.
proof fn lemma_part_placed(
    book: XlsxPackage,
    sheet: Seq<char>,
    rows: Seq<Seq<Cell>>,
    headers: Option<Seq<Seq<char>>>,
    fallback: StyleFallback,
    numbers: NumberTable,
)
    requires
        book.replaced(sheet, rows, headers, fallback, numbers).fault is None,
        book.sheet_text(sheet) is Ok,
        ({
            let path = book.sheets.paths[sheet];
            &&& path != "xl/sharedStrings.xml"@
            &&& forall|i: int|
                0 <= i < book.caches.len() ==> (#[trigger] book.caches[i]).path != path
            &&& forall|i: int| 0 <= i < book.tables.len() ==> #[trigger] book.tables[i] != path
        }),
    ensures
        ({
            let done = book.replaced(sheet, rows, headers, fallback, numbers).book;
            let xml = book.sheet_text(sheet)->Ok_0;
            let new = new_sheet(book, sheet, rows, headers, fallback, numbers);
            let data = crate::xlsx_update_rows::sheet_data(
                new.strings,
                new.headers,
                new.rows,
                new.looks,
                new.numbers,
            );
            let columns = crate::xlsx_package::larger(
                crate::xlsx_package::widest(new.rows),
                crate::xlsx_package::header_width(headers),
            );
            crate::xlsx_patch::patched_sheet(xml, data.xml, new.lines(), columns) matches Ok(text)
                && done.parts.content(book.sheets.paths[sheet]) == Some(
                vstd::utf8::encode_utf8(text),
            )
        }),
{
    let xml = book.sheet_text(sheet)->Ok_0;
    let new = new_sheet(book, sheet, rows, headers, fallback, numbers);
    let ready = book.released(xml)->Ok_0;
    let data = crate::xlsx_update_rows::sheet_data(
        new.strings,
        new.headers,
        new.rows,
        new.looks,
        new.numbers,
    );
    let total = new.rows.len() + crate::xlsx_package::header_rows(headers);
    assert(total == new.lines());
    let columns = crate::xlsx_package::larger(
        crate::xlsx_package::widest(new.rows),
        crate::xlsx_package::header_width(headers),
    );
    let filled = XlsxPackage { strings: data.strings, ..ready };
    assert(crate::xlsx_patch::patched_sheet(xml, data.xml, total, columns) is Ok);
    let text = crate::xlsx_patch::patched_sheet(xml, data.xml, total, columns)->Ok_0;
    lemma_stored(
        filled,
        sheet,
        crate::xlsx_patch::range_ref(total, columns),
        new.rows.len() as int,
        book.sheets.paths[sheet],
        text,
    );
}

/// A worksheet that has been put into a workbook stays there while the rest is
/// brought in step.
proof fn lemma_stored(
    book: XlsxPackage,
    sheet: Seq<char>,
    dim: Seq<char>,
    records: int,
    path: Seq<char>,
    text: Seq<char>,
)
    requires
        path != "xl/sharedStrings.xml"@,
        forall|i: int| 0 <= i < book.caches.len() ==> (#[trigger] book.caches[i]).path != path,
        forall|i: int| 0 <= i < book.tables.len() ==> #[trigger] book.tables[i] != path,
    ensures
        book.put(path, text).settled(sheet, dim, records).book.parts.content(path) == Some(
            vstd::utf8::encode_utf8(text),
        ),
{
    let stored = book.put(path, text);
    let other = path.push('x');
    assert(other.len() != path.len());
    crate::xlsx_update_laws::lemma_settled_keeps(stored, sheet, dim, records, other, path);
}

/// The replacements of a dimension, of rows and of a filter in their order.
proof fn lemma_edits(d: Edit, r: Edit, f: Option<Edit>)
    requires
        crate::xlsx_patch::precedes(d, r),
        f matches Some(e) ==> !crate::xlsx_patch::precedes(e, r),
    ensures
        crate::xlsx_patch::with_optional(
            crate::xlsx_patch::with_optional(seq![r], Some(d)),
            f,
        ) == match f {
            Some(e) => seq![d, r, e],
            None => seq![d, r],
        },
{
    reveal_with_fuel(crate::xlsx_patch::with_edit, 2);
    assert(seq![r].drop_last() =~= Seq::<Edit>::empty());
    assert(Seq::<Edit>::empty().push(d).push(r) =~= seq![d, r]);
    assert(crate::xlsx_patch::with_edit(seq![r], d) =~= seq![d, r]);
    if let Some(e) = f {
        assert(seq![d, r].last() == r);
        assert(seq![d, r].push(e) =~= seq![d, r, e]);
    }
}

/// The layout that these replacements lead to.
proof fn lemma_layout(xml: Seq<char>, d: Edit, r: Edit, f: Option<Edit>)
    requires
        !d.rows,
        r.rows,
        d.after == Seq::<char>::empty(),
        0 <= d.start <= d.end <= r.start <= r.end <= xml.len(),
        f matches Some(e) ==> r.end <= e.start && e.after == Seq::<char>::empty(),
    ensures
        ({
            let edits = match f {
                Some(e) => seq![d, r, e],
                None => seq![d, r],
            };
            let head = xml.subrange(0, d.start) + d.before + xml.subrange(d.end, r.start)
                + r.before;
            crate::xlsx_patch::laid_out(xml, edits, edits.len()) == Ok::<Layout, Seq<char>>(
                match f {
                    Some(e) => Layout {
                        head,
                        tail: r.after + xml.subrange(r.end, e.start) + e.before,
                        placed: true,
                        cursor: e.end,
                    },
                    None => Layout { head, tail: r.after, placed: true, cursor: r.end },
                },
            )
        }),
{
    let none = Seq::<char>::empty();
    let edits = match f {
        Some(e) => seq![d, r, e],
        None => seq![d, r],
    };
    let head = xml.subrange(0, d.start) + d.before + xml.subrange(d.end, r.start) + r.before;
    reveal_with_fuel(crate::xlsx_patch::laid_out, 4);
    assert(none + (xml.subrange(0, d.start) + d.before) + none =~= xml.subrange(0, d.start)
        + d.before);
    assert(xml.subrange(0, d.start) + d.before + (xml.subrange(d.end, r.start) + r.before)
        =~= head);
    let two = crate::xlsx_patch::laid_out(xml, edits, 2);
    assert(edits[0] == d && edits[1] == r);
    assert(two == Ok::<Layout, Seq<char>>(
        Layout { head, tail: r.after, placed: true, cursor: r.end },
    ));
    if let Some(e) = f {
        assert(edits[2] == e);
        assert(r.after + (xml.subrange(r.end, e.start) + e.before) + none =~= r.after
            + xml.subrange(r.end, e.start) + e.before);
    }
}

proof fn lemma_same_front(a: Seq<char>, b: Seq<char>, rest: Seq<char>)
    requires
        a + rest == b + rest,
    ensures
        a == b,
{
    assert((a + rest).len() == a.len() + rest.len());
    assert((b + rest).len() == b.len() + rest.len());
    assert forall|i: int| 0 <= i < a.len() implies a[i] == b[i] by {
        assert(a[i] == (a + rest)[i]);
        assert(b[i] == (b + rest)[i]);
    }
    assert(a =~= b);
}

proof fn lemma_same_back(front: Seq<char>, a: Seq<char>, b: Seq<char>)
    requires
        front + a == front + b,
    ensures
        a == b,
{
    assert((front + a).len() == front.len() + a.len());
    assert((front + b).len() == front.len() + b.len());
    assert forall|i: int| 0 <= i < a.len() implies a[i] == b[i] by {
        assert(a[i] == (front + a)[front.len() + i]);
        assert(b[i] == (front + b)[front.len() + i]);
    }
    assert(a =~= b);
}

/// The replacement of the dimension of a worksheet.
#[verifier::spinoff_prover]
proof fn lemma_dimension_edit(m: SheetMarkup, dim: Seq<char>)
    requires
        m.is_tidy(),
        crate::xml_utils::escaped_text(dim) == dim,
        crate::markup::is_value(dim),
        crate::xlsx_sheet_markup::has_no_bounds(dim),
    ensures
        ({
            let xml = crate::markup::written(m.pieces());
            let n = crate::markup::written(m.head).len() as int;
            &&& crate::xlsx_patch::dimension_edit(xml, dim) matches Some(d)
            &&& !d.rows
            &&& d.after == Seq::<char>::empty()
            &&& 0 <= d.start <= d.end <= n
            &&& xml.subrange(0, d.start) + d.before + xml.subrange(d.end, n)
                == crate::markup::written(crate::xlsx_replaced_markup::dimensioned(m.head, dim))
        }),
{
    let xml = crate::markup::written(m.pieces());
    let w = crate::markup::written(m.head);
    let n = w.len() as int;
    let none = Seq::<char>::empty();
    let rest = crate::markup::written(m.middle()) + crate::markup::written(m.tail);
    let new = crate::markup::written(crate::xlsx_replaced_markup::dimensioned(m.head, dim));
    crate::xlsx_replaced_markup::lemma_parts(m);
    assert(xml =~= w + rest);
    assert(xml =~= none + w + rest);
    crate::xlsx_replaced_markup::lemma_dimension_place(m, "dimension"@);
    crate::xlsx_replaced_markup::lemma_dimension_place(m, "worksheet"@);
    crate::xlsx_replaced_markup::lemma_first(m.head, 0, "dimension"@);
    crate::xlsx_replaced_markup::lemma_first(m.head, 0, "worksheet"@);
    let d = crate::xlsx_patch::dimension_edit(xml, dim)->0;
    match crate::xlsx_replaced_markup::first_tag(m.head, "dimension"@) {
        Some(k) => {
            let piece = m.head[k];
            crate::xlsx_replaced_markup::lemma_split(m.head, k);
            crate::xlsx_range_markup::lemma_range_set(piece, dim);
            crate::xlsx_sheet_markup::lemma_tag_text(piece);
            crate::xlsx_replaced_markup::lemma_piece_replaced(
                none,
                m.head,
                rest,
                k,
                crate::xlsx_range_markup::with_range(piece, dim),
            );
            assert(none + new + rest =~= new + rest);
        },
        None => {
            let k = crate::xlsx_replaced_markup::first_tag(m.head, "worksheet"@)->0;
            crate::xlsx_replaced_markup::lemma_split(m.head, k);
            crate::xlsx_replaced_markup::lemma_new_dimension(dim);
            crate::xlsx_replaced_markup::lemma_piece_added(
                m.head,
                rest,
                k,
                crate::xlsx_frame::range_piece("dimension"@, dim),
            );
        },
    }
    let front = xml.subrange(0, d.start) + d.before + xml.subrange(d.end, n);
    assert(front + rest =~= crate::xml_patch::spliced(xml, d.start, d.end, d.before));
    lemma_same_front(front, new, rest);
}

/// The replacement of the rows of a worksheet.
#[verifier::spinoff_prover]
proof fn lemma_rows_edit(m: SheetMarkup)
    requires
        m.is_tidy(),
    ensures
        ({
            let xml = crate::markup::written(m.pieces());
            let n = crate::markup::written(m.head).len() as int;
            let end = n + crate::markup::written(m.middle()).len();
            &&& crate::xlsx_patch::rows_edit(xml) matches Ok(r)
            &&& r.rows
            &&& n <= r.start <= r.end <= end <= xml.len()
            &&& r.start == n ==> r.end > n
            &&& xml.subrange(n, r.start) + r.before == "<sheetData>"@
            &&& r.after + xml.subrange(r.end, end) == "</sheetData>"@
            &&& crate::xlsx_package::rows_prefix(xml) == Seq::<char>::empty()
        }),
{
    let xml = crate::markup::written(m.pieces());
    let w = crate::markup::written(m.head);
    let n = w.len() as int;
    let mid = crate::markup::written(m.middle());
    let tail = crate::markup::written(m.tail);
    let none = Seq::<char>::empty();
    crate::xlsx_replaced_markup::lemma_parts(m);
    crate::xlsx_replaced_markup::lemma_rows_pieces(m);
    crate::xlsx_replaced_markup::lemma_outside(m.head);
    crate::xlsx_replaced_markup::lemma_no_rows_tag(m.head);
    reveal_strlit("<sheetData>");
    reveal_strlit("</sheetData>");
    reveal_strlit("/>");
    reveal_strlit("<");
    reveal_strlit("</");
    reveal_strlit("sheetData>");
    match m.rows {
        Some(rows) => {
            let old = crate::markup::written(rows);
            let open = crate::xlsx_replaced_markup::rows_open();
            let after = old + "</sheetData>"@ + tail;
            assert(rows == m.inner());
            assert(xml =~= w + "<sheetData>"@ + old + "</sheetData>"@ + tail);
            crate::xlsx_replaced_markup::lemma_rows_found(m.head, rows, m.tail);
            assert(none + w + ("<sheetData>"@ + after) =~= xml);
            assert(w + open.text() + after =~= xml);
            crate::xlsx_sheet_markup::lemma_tags_passed(
                none,
                m.head,
                "<sheetData>"@ + after,
                "sheetdata"@,
            );
            crate::xlsx_sheet_markup::lemma_tag_here(w, open, after, "sheetdata"@);
            let tag = xml.subrange(n, n + 11);
            assert(tag =~= "<sheetData>"@);
            assert(tag.subrange(9, 11)[0] == 'a');
            assert(!crate::xml_patch::ends_with(tag, "/>"@));
            assert(xml.subrange(n, n + 11) + none =~= "<sheetData>"@);
            let at = n + 11 + old.len();
            assert(none + xml.subrange(at, at + 12) =~= "</sheetData>"@);
        },
        None => {
            crate::xlsx_replaced_markup::lemma_empty_rows_found(m.head, m);
            assert(xml.subrange(n, n) + ("<"@ + none + "sheetData>"@) =~= "<sheetData>"@);
            let end = n + mid.len();
            assert(("</"@ + none + "sheetData>"@) + xml.subrange(end, end) =~= "</sheetData>"@);
        },
    }
}

/// The replacement of the filter of a worksheet.
#[verifier::spinoff_prover]
proof fn lemma_filter_edit(m: SheetMarkup, dim: Seq<char>)
    requires
        m.is_tidy(),
        crate::xml_utils::escaped_text(dim) == dim,
    ensures
        ({
            let xml = crate::markup::written(m.pieces());
            let from = (crate::markup::written(m.head).len() + crate::markup::written(
                m.middle(),
            ).len()) as int;
            let new = crate::markup::written(
                crate::xlsx_replaced_markup::with_first_range(m.tail, "autoFilter"@, dim),
            );
            match crate::xlsx_patch::filter_edit(xml, dim) {
                Some(e) => !e.rows && e.after == Seq::<char>::empty() && from <= e.start <= e.end
                    <= xml.len() && xml.subrange(from, e.start) + e.before + xml.skip(e.end)
                    == new,
                None => xml.skip(from) == new,
            }
        }),
{
    let local = "autoFilter"@;
    let xml = crate::markup::written(m.pieces());
    let a = crate::markup::written(m.head);
    let b = crate::markup::written(m.middle());
    let c = crate::markup::written(m.tail);
    let none = Seq::<char>::empty();
    let from = (a.len() + b.len()) as int;
    let tail = crate::xlsx_replaced_markup::with_first_range(m.tail, local, dim);
    let new = crate::markup::written(tail);
    crate::xlsx_replaced_markup::lemma_parts(m);
    crate::xlsx_replaced_markup::lemma_middle(m);
    crate::xlsx_replaced_markup::lemma_outside(m.head);
    crate::xlsx_replaced_markup::lemma_outside(m.tail);
    crate::xlsx_replaced_markup::lemma_first(m.tail, 0, local);
    assert(none + a + (b + c) =~= xml);
    assert(a + b + c =~= xml);
    assert(a + b + c + none =~= xml);
    crate::xlsx_sheet_markup::lemma_tags_passed(none, m.head, b + c, local);
    crate::xlsx_sheet_markup::lemma_tags_passed(a, m.middle(), c, local);
    crate::xlsx_replaced_markup::lemma_found(a + b, m.tail, none, local);
    match crate::xlsx_replaced_markup::first_tag(m.tail, local) {
        Some(f) => {
            let piece = crate::xlsx_range_markup::with_range(m.tail[f], dim);
            crate::xlsx_range_markup::lemma_range_set(m.tail[f], dim);
            crate::xlsx_replaced_markup::lemma_split(m.tail, f);
            crate::xlsx_replaced_markup::lemma_piece_replaced(a + b, m.tail, none, f, piece);
            let e = crate::xlsx_patch::filter_edit(xml, dim)->0;
            let back = xml.subrange(from, e.start) + e.before + xml.skip(e.end);
            assert(a + b + new + none =~= (a + b) + new);
            assert((a + b) + back =~= crate::xml_patch::spliced(xml, e.start, e.end, e.before));
            lemma_same_back(a + b, back, new);
        },
        None => {
            assert(xml.skip(from) =~= c);
        },
    }
}

/// What goes around rows that come one by one is plain markup where the worksheet is:
/// in front of them what stood in front of the old ones, with the dimension set,
/// behind them what stood behind, with the range of the filter set. With rows of
/// plain markup between them it is a document, and no row tags stand outside of these.
/// The rows have no prefix.
pub proof fn law_frame_is_markup(m: SheetMarkup, lines: Seq<Piece>, rows: int, columns: int)
    requires
        m.is_tidy(),
        crate::markup::is_block(lines),
    ensures
        ({
            let xml = crate::markup::written(m.pieces());
            let dim = crate::xlsx_patch::range_ref(rows, columns);
            let front = m.front(dim);
            let back = m.back(dim, true);
            &&& crate::xlsx_patch::around_rows(xml, dim) == Ok::<
                (Seq<char>, Seq<char>),
                Seq<char>,
            >((crate::markup::written(front), crate::markup::written(back)))
            &&& crate::xlsx_package::rows_prefix(xml) == Seq::<char>::empty()
            &&& crate::markup::is_document(front + lines + back)
            &&& crate::markup::written(front + lines + back) == crate::markup::written(front)
                + crate::markup::written(lines) + crate::markup::written(back)
            &&& crate::xlsx_read_laws::is_quiet(front)
            &&& crate::xlsx_read_laws::is_quiet(back)
        }),
{
    let xml = crate::markup::written(m.pieces());
    let dim = crate::xlsx_patch::range_ref(rows, columns);
    let front = m.front(dim);
    let back = m.back(dim, true);
    let last = crate::xlsx_replaced_markup::rows_close();
    let tail = crate::xlsx_replaced_markup::with_first_range(m.tail, "autoFilter"@, dim);
    crate::xlsx_range_markup::lemma_dim(rows, columns);
    lemma_document(m, dim, true, lines);
    lemma_joined_text(m, dim, lines);
    crate::markup::lemma_written_concat(front, lines);
    crate::markup::lemma_written_concat(front + lines, back);
    crate::xlsx_replaced_markup::lemma_rows_pieces(m);
    crate::markup::lemma_written_concat(seq![last], tail);
    crate::markup::lemma_written_one(last);
    lemma_dimension_edit(m, dim);
    lemma_rows_edit(m);
    lemma_filter_edit(m, dim);
    let d = crate::xlsx_patch::dimension_edit(xml, dim)->0;
    let r = crate::xlsx_patch::rows_edit(xml)->Ok_0;
    let f = crate::xlsx_patch::filter_edit(xml, dim);
    lemma_edits(d, r, f);
    lemma_layout(xml, d, r, f);
    lemma_around(m, d, r, f, dim);
}

/// The text in front of rows and behind them, put together.
proof fn lemma_around(m: SheetMarkup, d: Edit, r: Edit, f: Option<Edit>, dim: Seq<char>)
    requires
        ({
            let xml = crate::markup::written(m.pieces());
            let n = crate::markup::written(m.head).len() as int;
            let end = n + crate::markup::written(m.middle()).len();
            let new = crate::markup::written(
                crate::xlsx_replaced_markup::with_first_range(m.tail, "autoFilter"@, dim),
            );
            &&& 0 <= d.start <= d.end <= n <= r.start <= r.end <= end <= xml.len()
            &&& xml.subrange(0, d.start) + d.before + xml.subrange(d.end, n)
                == crate::markup::written(crate::xlsx_replaced_markup::dimensioned(m.head, dim))
            &&& xml.subrange(n, r.start) + r.before == "<sheetData>"@
            &&& r.after + xml.subrange(r.end, end) == "</sheetData>"@
            &&& match f {
                Some(e) => end <= e.start <= e.end <= xml.len() && xml.subrange(end, e.start)
                    + e.before + xml.skip(e.end) == new,
                None => xml.skip(end) == new,
            }
        }),
    ensures
        ({
            let xml = crate::markup::written(m.pieces());
            let new = crate::markup::written(
                crate::xlsx_replaced_markup::with_first_range(m.tail, "autoFilter"@, dim),
            );
            &&& xml.subrange(0, d.start) + d.before + xml.subrange(d.end, r.start) + r.before
                == crate::markup::written(crate::xlsx_replaced_markup::dimensioned(m.head, dim))
                + "<sheetData>"@
            &&& match f {
                Some(e) => r.after + xml.subrange(r.end, e.start) + e.before + xml.skip(e.end)
                    == "</sheetData>"@ + new,
                None => r.after + xml.skip(r.end) == "</sheetData>"@ + new,
            }
        }),
{
    let xml = crate::markup::written(m.pieces());
    let n = crate::markup::written(m.head).len() as int;
    let end = n + crate::markup::written(m.middle()).len();
    let a = xml.subrange(0, d.start);
    assert(xml.subrange(d.end, r.start) =~= xml.subrange(d.end, n) + xml.subrange(n, r.start));
    assert(a + d.before + xml.subrange(d.end, r.start) + r.before =~= (a + d.before
        + xml.subrange(d.end, n)) + (xml.subrange(n, r.start) + r.before));
    match f {
        Some(e) => {
            assert(xml.subrange(r.end, e.start) =~= xml.subrange(r.end, end) + xml.subrange(
                end,
                e.start,
            ));
            assert(r.after + xml.subrange(r.end, e.start) + e.before + xml.skip(e.end) =~= (r.after
                + xml.subrange(r.end, end)) + (xml.subrange(end, e.start) + e.before + xml.skip(
                e.end,
            )));
        },
        None => {
            assert(xml.skip(r.end) =~= xml.subrange(r.end, end) + xml.skip(end));
            assert(r.after + xml.skip(r.end) =~= (r.after + xml.subrange(r.end, end)) + xml.skip(
                end,
            ));
        },
    }
}

} // verus!
