//! Worksheets as the XLSX writer makes them can be updated: they are plain markup
//! around their rows.

use vstd::prelude::*;
use crate::formats::Cell;
use crate::markup::{Attr, Piece};
use crate::number::NumberTable;
use crate::sheet_tables::Tables;
use crate::xlsx_read_laws::XlsxPage;
use crate::xlsx_replaced_markup::SheetMarkup;
use crate::xlsx_writer::{SheetOptions, XlsxBook};

verus! {

/// Pieces with the characters that bound tags at their ends only, and with tags that
/// are neither those of the rows nor a filter.
pub open spec fn are_plain_tags(pieces: Seq<Piece>) -> bool {
    forall|i: int|
        0 <= i < pieces.len() ==> crate::xlsx_sheet_markup::is_clear(#[trigger] pieces[i])
            && crate::xlsx_sheet_markup::is_foreign(pieces[i]) && !crate::xlsx_sheet_markup::is_tag(
            pieces[i],
            "autoFilter"@,
        )
}

/// A name that is neither that of the rows nor of a filter.
pub open spec fn is_other_name(name: Seq<char>) -> bool {
    &&& !(name.len() >= 9 && crate::text::same_ignoring_case(name.take(9), "sheetData"@))
    &&& !crate::text::same_ignoring_case(name, "autoFilter"@)
}

/// Pieces with the characters that bound tags at their ends only, and with tags that
/// have short names.
pub open spec fn are_short(pieces: Seq<Piece>) -> bool {
    forall|i: int|
        0 <= i < pieces.len() ==> crate::xlsx_sheet_markup::is_clear(#[trigger] pieces[i])
            && has_short_name(pieces[i])
}

pub open spec fn has_short_name(piece: Piece) -> bool {
    match piece {
        Piece::Open { name, .. } => name.len() < 9,
        Piece::Empty { name, .. } => name.len() < 9,
        Piece::Close(name) => name.len() < 9,
        _ => true,
    }
}

proof fn lemma_plain_concat(a: Seq<Piece>, b: Seq<Piece>)
    requires
        are_plain_tags(a),
        are_plain_tags(b),
    ensures
        are_plain_tags(a + b),
{
    let all = a + b;
    assert forall|i: int| 0 <= i < all.len() implies crate::xlsx_sheet_markup::is_clear(
        #[trigger] all[i],
    ) && crate::xlsx_sheet_markup::is_foreign(all[i]) && !crate::xlsx_sheet_markup::is_tag(
        all[i],
        "autoFilter"@,
    ) by {
        if i < a.len() {
            assert(all[i] == a[i]);
        } else {
            assert(all[i] == b[i - a.len()]);
        }
    }
}

proof fn lemma_plain_element(name: Seq<char>, attributes: Seq<Attr>, inner: Seq<Piece>)
    requires
        is_other_name(name),
        crate::xlsx_sheet_markup::are_clear(attributes),
        are_plain_tags(inner),
    ensures
        are_plain_tags(crate::markup::element(name, attributes, inner)),
{
    let open = seq![Piece::Open { name, attributes }];
    let close = seq![Piece::Close(name)];
    assert(are_plain_tags(open));
    assert(are_plain_tags(close));
    lemma_plain_concat(open, inner);
    lemma_plain_concat(open + inner, close);
}

proof fn lemma_short_concat(a: Seq<Piece>, b: Seq<Piece>)
    requires
        are_short(a),
        are_short(b),
    ensures
        are_short(a + b),
{
    let all = a + b;
    assert forall|i: int| 0 <= i < all.len() implies crate::xlsx_sheet_markup::is_clear(
        #[trigger] all[i],
    ) && has_short_name(all[i]) by {
        if i < a.len() {
            assert(all[i] == a[i]);
        } else {
            assert(all[i] == b[i - a.len()]);
        }
    }
}

proof fn lemma_short_element(name: Seq<char>, attributes: Seq<Attr>, inner: Seq<Piece>)
    requires
        name.len() < 9,
        crate::xlsx_sheet_markup::are_clear(attributes),
        are_short(inner),
    ensures
        are_short(crate::markup::element(name, attributes, inner)),
{
    let open = seq![Piece::Open { name, attributes }];
    let close = seq![Piece::Close(name)];
    assert(are_short(open));
    assert(are_short(close));
    lemma_short_concat(open, inner);
    lemma_short_concat(open + inner, close);
}

proof fn lemma_short_cell(kind: Option<Seq<char>>, style: Option<int>, value: Seq<char>)
    requires
        kind matches Some(k) ==> crate::xlsx_sheet_markup::has_no_bounds(k),
    ensures
        are_short(crate::xlsx_markup::cell_pieces(kind, style, value)),
{
    let text = seq![Piece::Text(value)];
    reveal_strlit("c");
    reveal_strlit("v");
    crate::xlsx_row_markup::lemma_cell_attributes_clear(kind, style);
    assert(are_short(text));
    lemma_short_element("v"@, Seq::empty(), text);
    lemma_short_element(
        "c"@,
        crate::xlsx_markup::cell_attributes(kind, style),
        crate::markup::element("v"@, Seq::empty(), text),
    );
}

proof fn lemma_short_cells(
    tables: Tables,
    row: Seq<Cell>,
    n: nat,
    numbers: NumberTable,
    streaming: bool,
)
    ensures
        are_short(crate::xlsx_markup::pieces_of_cells(tables, row, n, numbers, streaming)),
    decreases n,
{
    if n > 0 {
        let m = (n - 1) as nat;
        let t = crate::xlsx_cells::cells(tables, row, m, numbers, streaming).tables;
        let cell = row[n - 1];
        reveal_strlit("s");
        reveal_strlit("b");
        lemma_short_cells(tables, row, m, numbers, streaming);
        if let Some((kind, value)) = crate::xlsx_markup::stored_as(
            t.with_format(cell.format),
            cell.value,
            numbers,
            streaming,
        ) {
            lemma_short_cell(kind, crate::xlsx_markup::written_style(t, cell), value);
        }
        lemma_short_concat(
            crate::xlsx_markup::pieces_of_cells(tables, row, m, numbers, streaming),
            crate::xlsx_markup::pieces_of_cell(t, cell, numbers, streaming),
        );
    }
}

proof fn lemma_short_rows(
    tables: Tables,
    sheet: Seq<Seq<Cell>>,
    n: nat,
    numbers: NumberTable,
    streaming: bool,
)
    ensures
        are_short(crate::xlsx_markup::pieces_of_rows(tables, sheet, n, numbers, streaming)),
    decreases n,
{
    if n > 0 {
        let m = (n - 1) as nat;
        let t = crate::xlsx_cells::rows(tables, sheet, m, numbers, streaming).tables;
        let row = sheet[n - 1];
        reveal_strlit("row");
        lemma_short_rows(tables, sheet, m, numbers, streaming);
        lemma_short_cells(t, row, row.len(), numbers, streaming);
        lemma_short_element(
            "row"@,
            Seq::empty(),
            crate::xlsx_markup::pieces_of_cells(t, row, row.len(), numbers, streaming),
        );
        lemma_short_concat(
            crate::xlsx_markup::pieces_of_rows(tables, sheet, m, numbers, streaming),
            crate::xlsx_markup::pieces_of_row(t, row, numbers, streaming),
        );
    }
}

proof fn lemma_short_headers(tables: Tables, headers: Seq<Seq<char>>, n: nat)
    ensures
        are_short(crate::xlsx_markup::pieces_of_headers(tables, headers, n)),
    decreases n,
{
    if n > 0 {
        let m = (n - 1) as nat;
        let index = crate::xlsx_cells::header_cells(tables, headers, m).tables.string_index(
            headers[n - 1],
        );
        reveal_strlit("s");
        lemma_short_headers(tables, headers, m);
        lemma_short_cell(Some("s"@), Some(3), crate::text::decimal(index));
        lemma_short_concat(
            crate::xlsx_markup::pieces_of_headers(tables, headers, m),
            crate::xlsx_markup::cell_pieces(Some("s"@), Some(3), crate::text::decimal(index)),
        );
    }
}

/// The lines that the writer makes have tags with short names.
proof fn lemma_short_page(page: XlsxPage)
    ensures
        are_short(page.pieces()),
{
    let header = crate::xlsx_cells::header_row(page.tables, page.headers);
    reveal_strlit("row");
    if let Some(h) = page.headers {
        lemma_short_headers(page.tables, h, h.len());
        lemma_short_element(
            "row"@,
            Seq::empty(),
            crate::xlsx_markup::pieces_of_headers(page.tables, h, h.len()),
        );
    }
    lemma_short_rows(
        header.tables,
        page.sheet,
        page.sheet.len(),
        page.numbers,
        page.streaming,
    );
    lemma_short_concat(
        crate::xlsx_markup::pieces_of_header_row(page.tables, page.headers),
        crate::xlsx_markup::pieces_of_rows(
            header.tables,
            page.sheet,
            page.sheet.len(),
            page.numbers,
            page.streaming,
        ),
    );
}

/// The names of the tags in front of rows.
proof fn lemma_names()
    ensures
        is_other_name("worksheet"@),
        is_other_name("dimension"@),
        is_other_name("sheetViews"@),
        is_other_name("sheetView"@),
        is_other_name("pane"@),
        is_other_name("selection"@),
        is_other_name("sheetFormatPr"@),
        is_other_name("cols"@),
        is_other_name("col"@),
{
    reveal_strlit("sheetData");
    reveal_strlit("autoFilter");
    reveal_strlit("worksheet");
    reveal_strlit("dimension");
    reveal_strlit("sheetViews");
    reveal_strlit("sheetView");
    reveal_strlit("pane");
    reveal_strlit("selection");
    reveal_strlit("sheetFormatPr");
    reveal_strlit("cols");
    reveal_strlit("col");
    assert("worksheet"@.take(9)[0] == 'w' && "sheetData"@[0] == 's');
    assert("dimension"@.take(9)[0] == 'd');
    assert("sheetViews"@.take(9)[5] == 'V' && "sheetData"@[5] == 'D');
    assert("sheetView"@.take(9)[5] == 'V');
    assert("selection"@.take(9)[1] == 'e' && "sheetData"@[1] == 'h');
    assert("sheetFormatPr"@.take(9)[5] == 'F');
    assert("sheetViews"@[0] == 's' && "autoFilter"@[0] == 'a');
}

proof fn lemma_width_clear(n: nat)
    ensures
        crate::xlsx_sheet_markup::has_no_bounds(crate::writer_helpers::hundredths_text(n)),
{
    crate::text::lemma_digits(n / 100);
    let s = crate::writer_helpers::hundredths_text(n);
    let whole = crate::text::digits(n / 100);
    assert forall|i: int| 0 <= i < s.len() implies #[trigger] s[i] != '<' && s[i] != '>' by {
        if i < whole.len() {
            assert(s[i] == whole[i]);
            assert(crate::text::is_digit(whole[i]));
        }
    }
}

proof fn lemma_plain_columns(widths: Seq<int>, n: nat)
    ensures
        are_plain_tags(crate::xlsx_frame::column_pieces(widths, n)),
    decreases n,
{
    if n > 0 {
        let m = (n - 1) as nat;
        let piece = crate::xlsx_frame::column_piece(n as int, widths[n - 1]);
        lemma_plain_columns(widths, m);
        lemma_names();
        reveal_strlit("1");
        crate::xlsx_row_markup::lemma_decimal_clear(n as int);
        lemma_width_clear(crate::writer_helpers::written_width(widths[n - 1], false) as nat);
        assert(are_plain_tags(seq![piece]));
        lemma_plain_concat(crate::xlsx_frame::column_pieces(widths, m), seq![piece]);
    }
}

proof fn lemma_plain_views(has_headers: bool, is_first: bool)
    ensures
        are_plain_tags(crate::xlsx_frame::view_pieces(has_headers, is_first)),
{
    let attributes = crate::xlsx_frame::view_attributes(is_first);
    let view = crate::xlsx_frame::view_piece(has_headers, is_first);
    let pane = seq![crate::xlsx_frame::pane_piece()];
    let selection = seq![crate::xlsx_frame::selection_piece()];
    let format = seq![crate::xlsx_frame::format_piece()];
    lemma_names();
    reveal_strlit("0");
    reveal_strlit("1");
    reveal_strlit("A2");
    reveal_strlit("bottomLeft");
    reveal_strlit("frozen");
    reveal_strlit("15");
    assert(crate::xlsx_sheet_markup::are_clear(attributes));
    assert(are_plain_tags(pane));
    assert(are_plain_tags(selection));
    assert(are_plain_tags(format));
    lemma_plain_concat(pane, selection);
    if has_headers {
        lemma_plain_element("sheetView"@, attributes, pane + selection);
    } else {
        assert(are_plain_tags(view));
    }
    lemma_plain_element("sheetViews"@, Seq::empty(), view);
    lemma_plain_concat(
        crate::markup::element("sheetViews"@, Seq::empty(), view),
        format,
    );
}

/// What stands in front of the rows of a written sheet.
pub open spec fn written_head(
    total_rows: int,
    columns: int,
    widths: Seq<int>,
    has_headers: bool,
    is_first: bool,
) -> Seq<Piece> {
    seq![crate::xlsx_frame::declaration_piece()] + seq![
        Piece::Open {
            name: "worksheet"@,
            attributes: crate::xlsx_frame::worksheet_attributes(),
        },
    ] + crate::xlsx_frame::head_pieces(total_rows, columns, widths, has_headers, is_first)
}

/// A written sheet, by what stands around its rows.
pub open spec fn written_markup(
    total_rows: int,
    columns: int,
    widths: Seq<int>,
    has_headers: bool,
    is_first: bool,
    filtered: bool,
    lines: Seq<Piece>,
) -> SheetMarkup {
    SheetMarkup {
        head: written_head(total_rows, columns, widths, has_headers, is_first),
        rows: Some(lines),
        spaced: false,
        tail: crate::xlsx_frame::filter_pieces(filtered, total_rows, columns) + seq![
            Piece::Close("worksheet"@),
        ],
    }
}

proof fn lemma_plain_head(
    total_rows: int,
    columns: int,
    widths: Seq<int>,
    has_headers: bool,
    is_first: bool,
)
    ensures
        are_plain_tags(written_head(total_rows, columns, widths, has_headers, is_first)),
{
    let range = crate::xlsx_patch::range_ref(total_rows, columns);
    let declaration = seq![crate::xlsx_frame::declaration_piece()];
    let attributes = crate::xlsx_frame::worksheet_attributes();
    let open = seq![Piece::Open { name: "worksheet"@, attributes }];
    let dimension = seq![crate::xlsx_frame::range_piece("dimension"@, range)];
    let views = crate::xlsx_frame::view_pieces(has_headers, is_first);
    let columns_inside = crate::xlsx_frame::column_pieces(widths, widths.len());
    let cols = crate::markup::element("cols"@, Seq::empty(), columns_inside);
    lemma_names();
    crate::xlsx_range_markup::lemma_dim(total_rows, columns);
    lemma_plain_views(has_headers, is_first);
    lemma_plain_columns(widths, widths.len());
    lemma_plain_element("cols"@, Seq::empty(), columns_inside);
    lemma_namespaces_clear();
    assert(are_plain_tags(declaration));
    assert(are_plain_tags(open));
    assert(are_plain_tags(dimension));
    lemma_plain_concat(dimension, views);
    lemma_plain_concat(dimension + views, cols);
    lemma_plain_concat(declaration, open);
    lemma_plain_concat(declaration + open, dimension + views + cols);
    assert(crate::xlsx_frame::dimension_range(total_rows, columns) == range);
}

proof fn lemma_namespaces_clear()
    ensures
        crate::xlsx_sheet_markup::has_no_bounds(crate::xlsx_cells::DECLARATION@),
        crate::xlsx_sheet_markup::are_clear(crate::xlsx_frame::worksheet_attributes()),
{
    crate::xlsx_frame::lemma_declaration();
    crate::xlsx_frame::lemma_namespaces();
    reveal_strlit("http://schemas.openxmlformats.org/spreadsheetml/2006/main");
    reveal_strlit("http://schemas.openxmlformats.org/officeDocument/2006/relationships");
    reveal_strlit("xml version=\"1.0\" encoding=\"UTF-8\" standalone=\"yes\"");
}

/// A tag with nothing but a range.
proof fn lemma_range_piece_tidy(name: Seq<char>, rows: int, columns: int)
    requires
        crate::markup::is_name(name),
    ensures
        ({
            let range = crate::xlsx_patch::range_ref(rows, columns);
            let piece = crate::xlsx_frame::range_piece(name, range);
            &&& piece.is_sound()
            &&& crate::xlsx_sheet_markup::is_clear(piece)
            &&& crate::xlsx_range_markup::has_range(piece)
        }),
{
    let range = crate::xlsx_patch::range_ref(rows, columns);
    let piece = crate::xlsx_frame::range_piece(name, range);
    let list = crate::xlsx_range_markup::attributes_of(piece);
    crate::xlsx_range_markup::lemma_dim(rows, columns);
    crate::xlsx_frame::lemma_range_piece(name, range);
    assert(crate::xlsx_range_markup::is_range_at(list, 0));
    reveal_strlit("<");
    reveal_strlit(" ref=\"");
    reveal_strlit("\"/>");
    let text = piece.text();
    assert forall|i: int| 0 <= i < text.len() implies (#[trigger] text[i] as u32) < 128 by {
        let n = 1 + name.len();
        if i == 0 {
        } else if i < n {
            assert(text[i] == name[i - 1]);
            assert(crate::markup::is_letter(name[i - 1]));
        } else if i < n + 6 {
            assert(text[i] == " ref=\""@[i - n]);
        } else if i < n + 6 + range.len() {
            assert(text[i] == range[i - n - 6]);
        } else {
            assert(text[i] == "\"/>"@[i - n - 6 - range.len()]);
        }
    }
}

/// Rows with short names hold no dimension, no filter and no tag of the rows.
proof fn lemma_short_lines(lines: Seq<Piece>)
    requires
        are_short(lines),
        crate::markup::is_block(lines),
    ensures
        crate::xlsx_sheet_markup::all_clear(lines),
        crate::xlsx_sheet_markup::all_foreign(lines),
        crate::xlsx_sheet_markup::has_no_tag(lines, "dimension"@),
        crate::xlsx_sheet_markup::has_no_tag(lines, "autoFilter"@),
{
    reveal_strlit("dimension");
    reveal_strlit("autoFilter");
    assert forall|i: int| 0 <= i < lines.len() implies (#[trigger] lines[i]).is_sound()
        && crate::xlsx_sheet_markup::is_clear(lines[i]) && crate::xlsx_sheet_markup::is_foreign(
        lines[i],
    ) && !crate::xlsx_sheet_markup::is_tag(lines[i], "dimension"@)
        && !crate::xlsx_sheet_markup::is_tag(lines[i], "autoFilter"@) by {
        assert(has_short_name(lines[i]));
    }
}

/// A sheet as the writer makes it is plain markup around its rows in the order that
/// an update asks for.
#[verifier::spinoff_prover]
proof fn lemma_written_is_tidy(
    total_rows: int,
    columns: int,
    widths: Seq<int>,
    has_headers: bool,
    is_first: bool,
    filtered: bool,
    lines: Seq<Piece>,
)
    requires
        filtered ==> columns > 0 && total_rows > 0,
        crate::markup::is_block(lines),
        are_short(lines),
        ({
            let front = crate::xlsx_frame::front_pieces(
                total_rows,
                columns,
                widths,
                has_headers,
                is_first,
            );
            let back = crate::xlsx_frame::back_pieces(filtered, total_rows, columns);
            &&& crate::markup::is_document(front + lines + back)
            &&& crate::xlsx_read_laws::is_quiet(front)
            &&& crate::xlsx_read_laws::is_quiet(back)
        }),
    ensures
        ({
            let m = written_markup(
                total_rows,
                columns,
                widths,
                has_headers,
                is_first,
                filtered,
                lines,
            );
            &&& m.is_tidy()
            &&& m.pieces() == crate::xlsx_frame::front_pieces(
                total_rows,
                columns,
                widths,
                has_headers,
                is_first,
            ) + lines + crate::xlsx_frame::back_pieces(filtered, total_rows, columns)
        }),
{
    let front = crate::xlsx_frame::front_pieces(
        total_rows,
        columns,
        widths,
        has_headers,
        is_first,
    );
    let back = crate::xlsx_frame::back_pieces(filtered, total_rows, columns);
    let m = written_markup(
        total_rows,
        columns,
        widths,
        has_headers,
        is_first,
        filtered,
        lines,
    );
    let head = m.head;
    let tail = m.tail;
    assert(m.pieces() =~= front + lines + back);
    lemma_plain_head(total_rows, columns, widths, has_headers, is_first);
    assert forall|i: int| 0 <= i < head.len() implies (#[trigger] head[i]).is_sound()
        && crate::xlsx_sheet_markup::is_clear(head[i]) && crate::xlsx_sheet_markup::is_foreign(
        head[i],
    ) && crate::xlsx_frame::is_no_row(head[i]) by {
        assert(front[i] == head[i]);
        assert(front[i].is_sound());
    }
    lemma_short_lines(lines);
    assert(m.inner() == lines);
    assert forall|open: Seq<Seq<char>>| #[trigger]
        crate::markup::nested(open, m.inner()) == Some(open) by {
        assert(crate::markup::nested(open, lines) == Some(open));
    }
    lemma_written_tail(total_rows, columns, filtered);
    lemma_written_dimension(total_rows, columns, widths, has_headers, is_first);
    assert(crate::xlsx_sheet_markup::has_no_tag(head, "autoFilter"@));
}

/// What stands behind the rows of a written sheet.
proof fn lemma_written_tail(total_rows: int, columns: int, filtered: bool)
    requires
        filtered ==> columns > 0 && total_rows > 0,
    ensures
        ({
            let tail = crate::xlsx_frame::filter_pieces(filtered, total_rows, columns) + seq![
                Piece::Close("worksheet"@),
            ];
            &&& crate::xlsx_replaced_markup::are_outside(tail)
            &&& crate::xlsx_sheet_markup::has_no_tag(tail, "dimension"@)
            &&& crate::xlsx_replaced_markup::first_tag(tail, "autoFilter"@) matches Some(f)
                ==> crate::xlsx_range_markup::has_range(tail[f])
        }),
{
    let filter = crate::xlsx_frame::filter_pieces(filtered, total_rows, columns);
    let last = Piece::Close("worksheet"@);
    let tail = filter + seq![last];
    lemma_names();
    reveal_strlit("autoFilter");
    reveal_strlit("dimension");
    reveal_strlit("worksheet");
    reveal_strlit("sheetData");
    reveal_strlit("row");
    assert("autoFilter"@.take(9)[0] == 'a' && "sheetData"@[0] == 's');
    lemma_range_piece_tidy("autoFilter"@, total_rows, columns);
    crate::xlsx_replaced_markup::lemma_first(tail, 0, "autoFilter"@);
    assert forall|i: int| 0 <= i < tail.len() implies (#[trigger] tail[i]).is_sound()
        && crate::xlsx_sheet_markup::is_clear(tail[i]) && crate::xlsx_sheet_markup::is_foreign(
        tail[i],
    ) && crate::xlsx_frame::is_no_row(tail[i]) && !crate::xlsx_sheet_markup::is_tag(
        tail[i],
        "dimension"@,
    ) by {
        if i < filter.len() {
            assert(tail[i] == filter[i]);
        } else {
            assert(tail[i] == last);
        }
    }
    if let Some(f) = crate::xlsx_replaced_markup::first_tag(tail, "autoFilter"@) {
        if f >= filter.len() {
            assert(tail[f] == last);
        } else {
            assert(tail[f] == filter[f]);
        }
    }
}

/// The dimension of a written sheet.
proof fn lemma_written_dimension(
    total_rows: int,
    columns: int,
    widths: Seq<int>,
    has_headers: bool,
    is_first: bool,
)
    ensures
        ({
            let head = written_head(total_rows, columns, widths, has_headers, is_first);
            crate::xlsx_replaced_markup::first_tag(head, "dimension"@) matches Some(d)
                && crate::xlsx_range_markup::has_range(head[d])
        }),
{
    let head = written_head(total_rows, columns, widths, has_headers, is_first);
    let range = crate::xlsx_patch::range_ref(total_rows, columns);
    reveal_strlit("dimension");
    reveal_strlit("worksheet");
    assert("worksheet"@[0] == 'w' && "dimension"@[0] == 'd');
    lemma_range_piece_tidy("dimension"@, total_rows, columns);
    assert(head[0] == crate::xlsx_frame::declaration_piece());
    assert(head[1] is Open);
    assert(crate::xlsx_sheet_markup::tag_name(head[1]) == Some("worksheet"@));
    assert(head[2] == crate::xlsx_frame::range_piece("dimension"@, range));
    reveal_with_fuel(crate::xlsx_replaced_markup::first_from, 4);
}

/// The sheets that the writer makes at once can be updated: their parts are plain
/// markup around their rows.
pub proof fn law_written_sheet_is_tidy(
    book: XlsxBook,
    columns: int,
    sheet: Seq<Seq<Cell>>,
    headers: Option<Seq<Seq<char>>>,
    do_autofilter: bool,
    numbers: NumberTable,
)
    requires
        crate::xlsx_markup::prints_plainly(numbers),
    ensures
        ({
            let page = XlsxPage {
                tables: book.tables,
                headers,
                sheet,
                numbers,
                streaming: false,
            };
            let after = book.with_written_sheet(columns, sheet, headers, do_autofilter, numbers);
            let total_rows = page.lines();
            let m = written_markup(
                total_rows,
                columns,
                crate::xlsx_writer::fitted_widths(columns, headers, Some(sheet), numbers),
                headers is Some,
                book.sheets.len() == 1,
                do_autofilter && headers is Some && columns > 0 && total_rows > 0,
                page.pieces(),
            );
            &&& m.is_tidy()
            &&& after.entries.last().bytes == vstd::utf8::encode_utf8(
                crate::markup::written(m.pieces()),
            )
        }),
{
    let page = XlsxPage { tables: book.tables, headers, sheet, numbers, streaming: false };
    let total_rows = page.lines();
    crate::xlsx_frame::law_written_part(
        book,
        columns,
        sheet,
        headers,
        do_autofilter,
        numbers,
    );
    lemma_short_page(page);
    let header = crate::xlsx_cells::header_row(book.tables, headers);
    crate::xlsx_markup::lemma_pieces_of_header_row(book.tables, headers);
    crate::xlsx_markup::lemma_pieces_of_rows(header.tables, sheet, sheet.len(), numbers, false);
    crate::markup::lemma_block_concat(
        crate::xlsx_markup::pieces_of_header_row(book.tables, headers),
        crate::xlsx_markup::pieces_of_rows(header.tables, sheet, sheet.len(), numbers, false),
    );
    lemma_written_is_tidy(
        total_rows,
        columns,
        crate::xlsx_writer::fitted_widths(columns, headers, Some(sheet), numbers),
        headers is Some,
        book.sheets.len() == 1,
        do_autofilter && headers is Some && columns > 0 && total_rows > 0,
        page.pieces(),
    );
}

/// The same holds of sheets that the writer makes row by row.
pub proof fn law_streamed_sheet_is_tidy(
    book: XlsxBook,
    name: Seq<char>,
    columns: int,
    sheet: Seq<Seq<Cell>>,
    headers: Option<Seq<Seq<char>>>,
    options: SheetOptions,
    numbers: NumberTable,
)
    requires
        crate::xlsx_markup::prints_plainly(numbers),
    ensures
        ({
            let page = XlsxPage {
                tables: book.tables,
                headers,
                sheet,
                numbers,
                streaming: true,
            };
            let after = crate::xlsx_laws::with_rows(
                book.with_started_sheet(name, columns, headers, options, numbers),
                sheet,
                sheet.len(),
                numbers,
            ).with_ended_sheet();
            let total_rows = page.lines();
            let m = written_markup(
                total_rows,
                columns,
                crate::xlsx_writer::fitted_widths(
                    columns,
                    headers,
                    crate::xlsx_writer::sample_cells(options.sample_rows),
                    numbers,
                ),
                headers is Some,
                book.sheets.len() == 0,
                options.do_autofilter && headers is Some && columns > 0 && total_rows > 0,
                page.pieces(),
            );
            &&& m.is_tidy()
            &&& after.entries.last().bytes == vstd::utf8::encode_utf8(
                crate::markup::written(m.pieces()),
            )
        }),
{
    let page = XlsxPage { tables: book.tables, headers, sheet, numbers, streaming: true };
    let total_rows = page.lines();
    crate::xlsx_frame::law_streamed_part(
        book,
        name,
        columns,
        sheet,
        headers,
        options,
        numbers,
    );
    lemma_short_page(page);
    let header = crate::xlsx_cells::header_row(book.tables, headers);
    crate::xlsx_markup::lemma_pieces_of_header_row(book.tables, headers);
    crate::xlsx_markup::lemma_pieces_of_rows(header.tables, sheet, sheet.len(), numbers, true);
    crate::markup::lemma_block_concat(
        crate::xlsx_markup::pieces_of_header_row(book.tables, headers),
        crate::xlsx_markup::pieces_of_rows(header.tables, sheet, sheet.len(), numbers, true),
    );
    lemma_written_is_tidy(
        total_rows,
        columns,
        crate::xlsx_writer::fitted_widths(
            columns,
            headers,
            crate::xlsx_writer::sample_cells(options.sample_rows),
            numbers,
        ),
        headers is Some,
        book.sheets.len() == 0,
        options.do_autofilter && headers is Some && columns > 0 && total_rows > 0,
        page.pieces(),
    );
}

} // verus!
