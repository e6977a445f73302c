//! What the XLSX reader makes of a whole workbook of the XLSX writer.

use vstd::prelude::*;
use crate::formats::Cell;
use crate::markup::Piece;
use crate::number::NumberTable;
use crate::sheet_tables::Tables;
use crate::xlsx_read_laws::{Doubles, XlsxPage};
use crate::xlsx_reader::{Progress, XlsxBookState};
use crate::xlsx_writer::{Part, XlsxBook};

verus! {

/// The reader once the parts of a workbook have been loaded, each plain markup but
/// for the relationships: its workbook part, its relationships, its shared strings
/// and its styles.
pub open spec fn loaded(
    uses_1904: bool,
    workbook: Seq<Piece>,
    relationships: Seq<u8>,
    strings: Seq<Piece>,
    styles: Seq<Piece>,
) -> XlsxBookState {
    let sheets = crate::xlsx_reader::placed(
        crate::xml_documents::sheets_declared(crate::markup::items(workbook), Seq::empty()),
        crate::xlsx_reader::part_relationships(Some(relationships)),
    );
    let scan = crate::xml_documents::no_styles().run(crate::markup::items(styles));
    XlsxBookState {
        uses_1904,
        sheets,
        shared: crate::xml_documents::shared_strings_of(crate::markup::items(strings)),
        formats: scan.formats,
        date_formats: scan.date_formats,
        results: sheets.len() as int,
        ..crate::xlsx_reader::fresh_state()
    }
}

/// The reader that has loaded a workbook that was written.
#[verifier::opaque]
pub open spec fn reader_of(book: XlsxBook, uses_1904: bool) -> XlsxBookState {
    loaded(
        uses_1904,
        crate::xlsx_parts::workbook_pieces(book.sheets, book.autofilter_is_on),
        vstd::utf8::encode_utf8(crate::xlsx_parts::workbook_rels(book.sheets.len())),
        crate::xlsx_string_laws::shared_string_pieces(book.tables.strings, book.tables.uses),
        crate::xlsx_style_part::style_pieces(book.tables.formats),
    )
}

/// A part of plain markup.
pub open spec fn marked_up(name: Seq<char>, pieces: Seq<Piece>) -> Part {
    Part { name, bytes: vstd::utf8::encode_utf8(crate::markup::written(pieces)) }
}

/// The names of the sheets and the number formats hold no tabs and line breaks, and
/// the number formats are few enough for ids of sixteen bits.
pub open spec fn is_readable(book: XlsxBook) -> bool {
    &&& crate::xlsx_book_laws::are_one_line(book.sheets)
    &&& crate::xlsx_style_laws::are_one_line(book.tables.formats)
    &&& 164 + book.tables.formats.len() <= 0xffff
    &&& book.tables.strings.len() <= usize::MAX
}

/// A workbook is loaded from the archive that was written: the parts that are
/// loaded stand in it as plain markup, the reader lists every sheet with its name
/// and the place of its part, and it has the texts of the writer's table, without
/// their control characters, and the writer's styles.
pub proof fn law_written_book_is_loaded(book: XlsxBook, uses_1904: bool, i: int)
    requires
        0 <= i < book.sheets.len(),
        is_readable(book),
    ensures
        ({
            let archive = book.archive();
            let workbook = crate::xlsx_parts::workbook_pieces(book.sheets, book.autofilter_is_on);
            let strings = crate::xlsx_string_laws::shared_string_pieces(
                book.tables.strings,
                book.tables.uses,
            );
            let styles = crate::xlsx_style_part::style_pieces(book.tables.formats);
            let reader = reader_of(book, uses_1904);
            &&& crate::markup::is_document(workbook)
            &&& crate::markup::is_document(strings)
            &&& crate::markup::is_document(styles)
            &&& archive.contains(marked_up("xl/workbook.xml"@, workbook))
            &&& archive.contains(marked_up("xl/sharedStrings.xml"@, strings))
            &&& archive.contains(marked_up("xl/styles.xml"@, styles))
            &&& archive.contains(
                Part {
                    name: "xl/_rels/workbook.xml.rels"@,
                    bytes: vstd::utf8::encode_utf8(
                        crate::xlsx_parts::workbook_rels(book.sheets.len()),
                    ),
                },
            )
            &&& reader.sheets.len() == book.sheets.len()
            &&& reader.sheets[i].name == book.sheets[i].name
            &&& reader.sheets[i].path == crate::xlsx_writer::sheet_path(i + 1)
            &&& reader.shared == crate::xlsx_string_laws::cleaned(
                book.tables.strings,
                book.tables.strings.len(),
            )
            &&& reader.formats == crate::xlsx_style_laws::style_formats(book.tables.formats.len())
            &&& reader.date_formats == crate::xlsx_style_laws::date_ids(
                book.tables.formats,
                book.tables.formats.len(),
            )
            &&& reader.current == -1
        }),
{
    lemma_parts_stand(book);
    lemma_sheets_listed(book, uses_1904, i);
    lemma_texts_loaded(book, uses_1904);
    reveal(reader_of);
}

/// The parts that a reader loads stand in the archive as plain markup.
proof fn lemma_parts_stand(book: XlsxBook)
    requires
        is_readable(book),
    ensures
        ({
            let archive = book.archive();
            let workbook = crate::xlsx_parts::workbook_pieces(book.sheets, book.autofilter_is_on);
            let strings = crate::xlsx_string_laws::shared_string_pieces(
                book.tables.strings,
                book.tables.uses,
            );
            let styles = crate::xlsx_style_part::style_pieces(book.tables.formats);
            &&& crate::markup::is_document(workbook)
            &&& crate::markup::is_document(strings)
            &&& crate::markup::is_document(styles)
            &&& archive.contains(marked_up("xl/workbook.xml"@, workbook))
            &&& archive.contains(marked_up("xl/sharedStrings.xml"@, strings))
            &&& archive.contains(marked_up("xl/styles.xml"@, styles))
            &&& archive.contains(
                Part {
                    name: "xl/_rels/workbook.xml.rels"@,
                    bytes: vstd::utf8::encode_utf8(
                        crate::xlsx_parts::workbook_rels(book.sheets.len()),
                    ),
                },
            )
        }),
{
    crate::xlsx_book_laws::law_sheets_read_back(book.sheets, book.autofilter_is_on);
    crate::xlsx_string_laws::law_shared_strings_read_back(book.tables.strings, book.tables.uses);
    crate::xlsx_style_laws::law_styles_read_back(book.tables.formats);
    let archive = book.archive();
    let e = book.entries.len() as int;
    assert(archive[e].name == "xl/sharedStrings.xml"@);
    assert(archive[e + 1].name == "xl/styles.xml"@);
    assert(archive[e + 2].name == "xl/workbook.xml"@);
    assert(archive[e + 5].name == "xl/_rels/workbook.xml.rels"@);
}

/// The reader lists every sheet with its name and the place of its part.
proof fn lemma_sheets_listed(book: XlsxBook, uses_1904: bool, i: int)
    requires
        0 <= i < book.sheets.len(),
        is_readable(book),
    ensures
        ({
            let reader = reader_of(book, uses_1904);
            &&& reader.sheets.len() == book.sheets.len()
            &&& reader.sheets[i].name == book.sheets[i].name
            &&& reader.sheets[i].path == crate::xlsx_writer::sheet_path(i + 1)
        }),
{
    reveal(reader_of);
    let n = book.sheets.len();
    crate::xlsx_book_laws::law_sheets_read_back(book.sheets, book.autofilter_is_on);
    crate::text::lemma_bytes_text(crate::xlsx_parts::workbook_rels(n));
    crate::relationship_laws::law_xlsx_sheets_are_located(n, i + 1);
    lemma_places(i + 1);
}

/// The reader has the texts and the styles of the writer.
proof fn lemma_texts_loaded(book: XlsxBook, uses_1904: bool)
    requires
        is_readable(book),
    ensures
        ({
            let reader = reader_of(book, uses_1904);
            &&& reader.shared == crate::xlsx_string_laws::cleaned(
                book.tables.strings,
                book.tables.strings.len(),
            )
            &&& reader.formats == crate::xlsx_style_laws::style_formats(book.tables.formats.len())
            &&& reader.date_formats == crate::xlsx_style_laws::date_ids(
                book.tables.formats,
                book.tables.formats.len(),
            )
        }),
{
    reveal(reader_of);
    crate::xlsx_string_laws::law_shared_strings_read_back(book.tables.strings, book.tables.uses);
    crate::xlsx_style_laws::law_styles_read_back(book.tables.formats);
}

/// A sheet's part stands where its relationship leads.
proof fn lemma_places(n: int)
    ensures
        crate::relationship_laws::sheet_path(n, ".xml"@) == crate::xlsx_writer::sheet_path(n),
{
    reveal_strlit("xl/");
    reveal_strlit("worksheets/sheet");
    reveal_strlit("xl/worksheets/sheet");
    assert(crate::relationship_laws::sheet_path(n, ".xml"@) =~= crate::xlsx_writer::sheet_path(n));
}

/// The pieces of the part of a sheet written at once.
pub open spec fn part_pieces(
    book: XlsxBook,
    columns: int,
    sheet: Seq<Seq<Cell>>,
    headers: Option<Seq<Seq<char>>>,
    do_autofilter: bool,
    numbers: NumberTable,
) -> Seq<Piece> {
    let page = XlsxPage { tables: book.tables, headers, sheet, numbers, streaming: false };
    let total_rows = page.lines();
    let filtered = do_autofilter && headers is Some && columns > 0 && total_rows > 0;
    crate::xlsx_frame::front_pieces(
        total_rows,
        columns,
        crate::xlsx_writer::fitted_widths(columns, headers, Some(sheet), numbers),
        headers is Some,
        book.sheets.len() == 1,
    ) + page.pieces() + crate::xlsx_frame::back_pieces(filtered, total_rows, columns)
}

/// A workbook has come of another one by adding sheets and writing them: what was
/// there is still there.
pub open spec fn grows_from(later: XlsxBook, earlier: XlsxBook) -> bool {
    &&& earlier.entries.is_prefix_of(later.entries)
    &&& earlier.sheets.len() <= later.sheets.len()
    &&& forall|i: int|
        0 <= i < earlier.sheets.len() ==> (#[trigger] later.sheets[i]).name
            == earlier.sheets[i].name
    &&& crate::xlsx_read_laws::extends(later.tables, earlier.tables)
}

/// A workbook grows from one that has grown from another.
pub proof fn law_growth_adds_up(a: XlsxBook, b: XlsxBook, c: XlsxBook)
    requires
        grows_from(b, a),
        grows_from(c, b),
    ensures
        grows_from(a, a),
        grows_from(c, a),
{
    crate::xlsb_laws::lemma_prefix_trans(a.entries, b.entries, c.entries);
    crate::xlsx_read_laws::lemma_extends_trans(a.tables, b.tables, c.tables);
    assert forall|i: int| 0 <= i < a.sheets.len() implies (#[trigger] c.sheets[i]).name
        == a.sheets[i].name by {
        assert(b.sheets[i].name == a.sheets[i].name);
    }
}

proof fn lemma_headers_extend(tables: Tables, headers: Seq<Seq<char>>, n: nat)
    ensures
        crate::xlsx_read_laws::extends(
            crate::xlsx_cells::header_cells(tables, headers, n).tables,
            tables,
        ),
    decreases n,
{
    assert(crate::xlsx_read_laws::extends(tables, tables));
    if n > 0 {
        let m = (n - 1) as nat;
        let before = crate::xlsx_cells::header_cells(tables, headers, m).tables;
        lemma_headers_extend(tables, headers, m);
        crate::string_table::law_index_finds_text(before.strings, headers[n - 1], headers[n - 1]);
        assert(crate::xlsx_read_laws::extends(before.with_string(headers[n - 1]), before));
        crate::xlsx_read_laws::lemma_extends_trans(
            tables,
            before,
            before.with_string(headers[n - 1]),
        );
    }
}

/// Adding a sheet lets a workbook grow, and so does writing one at once.
pub proof fn law_written_sheets_stay(
    book: XlsxBook,
    name: Seq<char>,
    hidden: bool,
    columns: int,
    sheet: Seq<Seq<Cell>>,
    headers: Option<Seq<Seq<char>>>,
    do_autofilter: bool,
    numbers: NumberTable,
)
    ensures
        grows_from(book.with_sheet(name, hidden), book),
        book.sheets.len() > 0 ==> grows_from(
            book.with_written_sheet(columns, sheet, headers, do_autofilter, numbers),
            book,
        ),
{
    let page = XlsxPage { tables: book.tables, headers, sheet, numbers, streaming: false };
    let n = sheet.len() as int;
    assert(crate::xlsx_read_laws::extends(book.tables, book.tables));
    crate::xlsx_read_laws::lemma_rows_extend(page, 0, n);
    if let Some(h) = headers {
        lemma_headers_extend(book.tables, h, h.len());
    }
    crate::xlsx_read_laws::lemma_extends_trans(
        book.tables,
        page.rows(0).tables,
        page.rows(n).tables,
    );
}

/// A workbook that has grown from another is loaded with the sheet whose part was
/// the last one of that.
proof fn lemma_part_stays(later: XlsxBook, earlier: XlsxBook, uses_1904: bool, pieces: Seq<Piece>)
    requires
        earlier.sheets.len() > 0,
        earlier.entries.len() > 0,
        earlier.entries.last() == marked_up(
            crate::xlsx_writer::sheet_path(earlier.sheets.len() as int),
            pieces,
        ),
        grows_from(later, earlier),
        is_readable(later),
    ensures
        ({
            let index = earlier.sheets.len() - 1;
            let reader = reader_of(later, uses_1904);
            &&& reader.sheets[index].name == earlier.sheets[index].name
            &&& later.archive().contains(marked_up(reader.sheets[index].path, pieces))
            &&& crate::xlsx_read_laws::are_shared(earlier.tables, reader.info())
        }),
{
    let reader = reader_of(later, uses_1904);
    let last = earlier.sheets.len() - 1;
    let i = earlier.entries.len() - 1;
    lemma_sheets_listed(later, uses_1904, last);
    lemma_texts_loaded(later, uses_1904);
    assert(later.sheets[last].name == earlier.sheets[last].name);
    assert(later.entries.take(earlier.entries.len() as int)[i] == later.entries[i]);
    assert(later.archive()[i] == earlier.entries.last());
    assert(reader.shared.take(reader.shared.len() as int) =~= reader.shared);
    assert(crate::xlsx_read_laws::are_shared(later.tables, reader.info()));
    crate::xlsx_read_laws::lemma_shared_before(later.tables, earlier.tables, reader.info());
}

/// The sheet that is written last has the last part.
proof fn lemma_sheet_written(
    book: XlsxBook,
    columns: int,
    sheet: Seq<Seq<Cell>>,
    headers: Option<Seq<Seq<char>>>,
    do_autofilter: bool,
    numbers: NumberTable,
)
    requires
        book.sheets.len() > 0,
        crate::xlsx_markup::prints_plainly(numbers),
    ensures
        ({
            let after = book.with_written_sheet(columns, sheet, headers, do_autofilter, numbers);
            &&& after.sheets.len() == book.sheets.len()
            &&& after.sheets.last().name == book.sheets.last().name
            &&& after.entries.len() > 0
            &&& after.entries.last() == marked_up(
                crate::xlsx_writer::sheet_path(book.sheets.len() as int),
                part_pieces(book, columns, sheet, headers, do_autofilter, numbers),
            )
        }),
{
    crate::xlsx_frame::law_written_part(book, columns, sheet, headers, do_autofilter, numbers);
}

/// A workbook that was written reads back. A sheet is written at once, others may
/// follow it, the archive is made, and a reader loads the parts of the archive and
/// begins the sheet: the archive holds the sheet's part, which is plain markup, under the path
/// that the reader has for it, every read gives the next line, first the headers
/// and then the rows, each as its cells that are not empty with the values that
/// [`value_back`](crate::xlsx_read_laws::value_back) says, and behind the last line
/// the sheet ends. The texts of the numbers have to hold no markup and to stand for
/// doubles, which are supplied where the reader asks for them, and no line may have
/// more cells than a sheet has columns.
pub proof fn law_written_book_reads_back(
    book: XlsxBook,
    uses_1904: bool,
    columns: int,
    sheet: Seq<Seq<Cell>>,
    headers: Option<Seq<Seq<char>>>,
    do_autofilter: bool,
    numbers: NumberTable,
    later: XlsxBook,
    doubles: Doubles,
    n: nat,
)
    requires
        book.sheets.len() > 0,
        crate::xlsx_markup::prints_plainly(numbers),
        crate::xlsx_read_laws::reads_numbers(doubles, numbers, false),
        grows_from(
            later,
            book.with_written_sheet(columns, sheet, headers, do_autofilter, numbers),
        ),
        is_readable(later),
        ({
            let page = XlsxPage { tables: book.tables, headers, sheet, numbers, streaming: false };
            page.fits() && n <= page.lines()
        }),
    ensures
        ({
            let page = XlsxPage { tables: book.tables, headers, sheet, numbers, streaming: false };
            let index = book.sheets.len() - 1;
            let pieces = part_pieces(book, columns, sheet, headers, do_autofilter, numbers);
            let reader = reader_of(later, uses_1904);
            let start = reader.begun(index, crate::markup::items(pieces));
            let (behind, read) = start.after_reads(doubles, n).row_read(doubles);
            &&& reader.sheets[index].name == book.sheets[index].name
            &&& later.archive().contains(marked_up(reader.sheets[index].path, pieces))
            &&& crate::markup::is_document(pieces)
            &&& if n < page.lines() {
                &&& read == Ok::<Progress, Seq<char>>(Progress::Row)
                &&& behind.scan.row == page.line_back(reader.info(), doubles, n as int)
            } else {
                &&& read == Ok::<Progress, Seq<char>>(Progress::End)
                &&& behind.scan.row == Seq::<Cell>::empty()
            }
        }),
{
    let page = XlsxPage { tables: book.tables, headers, sheet, numbers, streaming: false };
    let after = book.with_written_sheet(columns, sheet, headers, do_autofilter, numbers);
    let index = book.sheets.len() - 1;
    let total_rows = page.lines();
    let filtered = do_autofilter && headers is Some && columns > 0 && total_rows > 0;
    let front = crate::xlsx_frame::front_pieces(
        total_rows,
        columns,
        crate::xlsx_writer::fitted_widths(columns, headers, Some(sheet), numbers),
        headers is Some,
        book.sheets.len() == 1,
    );
    let back = crate::xlsx_frame::back_pieces(filtered, total_rows, columns);
    let reader = reader_of(later, uses_1904);
    let pieces = part_pieces(book, columns, sheet, headers, do_autofilter, numbers);
    lemma_sheet_written(book, columns, sheet, headers, do_autofilter, numbers);
    lemma_part_stays(later, after, uses_1904, pieces);
    crate::xlsx_frame::law_written_part(book, columns, sheet, headers, do_autofilter, numbers);
    assert(page.is_readable(reader.info(), doubles));
    crate::xlsx_read_laws::law_written_sheet_reads_back(
        reader,
        index,
        page,
        front,
        back,
        doubles,
        n,
    );
}

} // verus!
