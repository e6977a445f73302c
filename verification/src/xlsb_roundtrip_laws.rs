//! What the XLSB reader makes of a whole workbook of the XLSB writer.

use vstd::prelude::*;
use crate::formats::Cell;
use crate::number::NumberTable;
use crate::xlsb_laws::Page;
use crate::xlsb_reader::XlsbBookState;
use crate::xlsb_writer::XlsbBook;
use crate::xlsx_writer::Part;

verus! {

/// The reader once the parts of a workbook have been loaded: its workbook part, its
/// relationships, its shared strings and its styles.
pub open spec fn loaded(
    workbook: Seq<u8>,
    relationships: Seq<u8>,
    strings: Seq<u8>,
    styles: Seq<u8>,
) -> Result<XlsbBookState, Seq<char>> {
    let (sheets, listed) = crate::xlsb_reader::sheets_from(
        crate::biff_reader::decoder_at_start(workbook),
        Seq::empty(),
    );
    let (shared, read) = crate::xlsb_reader::strings_from(
        crate::biff_reader::decoder_at_start(strings),
        Seq::empty(),
    );
    match crate::biff12::date_system_scan(workbook, 0) {
        Err(message) => Err(message),
        Ok(uses_1904) => match listed {
            Err(message) => Err(message),
            Ok(_) => match read {
                Err(message) => Err(message),
                Ok(_) => match crate::xlsb_reader::styles_from(
                    crate::biff_reader::decoder_at_start(styles),
                ) {
                    Err(message) => Err(message),
                    Ok(d) => Ok(
                        XlsbBookState {
                            uses_1904,
                            sheets: crate::xlsb_reader::located(
                                sheets,
                                crate::relationships::relationships(
                                    crate::text::bytes_text(relationships),
                                ),
                            ),
                            shared,
                            formats: d.xf_index_to_num_fmt_id,
                            date_formats: d.custom_num_fmts,
                            results: sheets.len() as int,
                            ..crate::xlsb_reader::fresh_state()
                        },
                    ),
                },
            },
        },
    }
}

/// The templates make whole records of the workbook part: around the sheet records
/// stand records that are none, and the date system can be read.
pub open spec fn lists_its_sheets(book: XlsbBook) -> bool {
    let t = book.templates;
    let part = crate::xlsb_parts::workbook_bin(t, book.sheets, book.autofilter_is_on);
    let rest = t.workbook_bin_middle + (if book.autofilter_is_on {
        crate::xlsb_parts::filter_section(t, book.sheets)
    } else {
        Seq::empty()
    }) + t.workbook_bin_end;
    &&& part.len() <= usize::MAX
    &&& crate::xlsb_laws::records_from(
        t.workbook_bin_start,
        0,
        crate::xlsb_part_laws::no_sheet(),
    )
    &&& crate::xlsb_laws::records_from(rest, 0, crate::xlsb_part_laws::no_sheet())
    &&& crate::biff12::date_system_scan(part, 0) is Ok
    &&& forall|i: int|
        0 <= i < book.sheets.len() ==> crate::xlsb_parts::sheet_payload(
            i + 1,
            #[trigger] book.sheets[i],
        ).len() <= u32::MAX
}

/// The styles can be read.
pub open spec fn has_styles(book: XlsbBook) -> bool {
    crate::xlsb_reader::styles_from(
        crate::biff_reader::decoder_at_start(
            crate::xlsb_parts::styles_bin(book.templates.styles_bin_base, book.tables.formats),
        ),
    ) is Ok
}

/// A workbook is loaded from the archive that was written: the reader lists every
/// sheet with its name and the place of its part, and has the texts of the writer's
/// table.
pub proof fn law_written_book_is_loaded(book: XlsbBook, i: int)
    requires
        0 <= i < book.sheets.len(),
        lists_its_sheets(book),
        has_styles(book),
        crate::xlsb_part_laws::all_short(book.tables.strings),
        crate::xlsb_parts::shared_strings_bin(book.tables.strings, book.tables.uses).len()
            <= usize::MAX,
    ensures
        ({
            let archive = book.archive();
            let workbook = crate::xlsb_parts::workbook_bin(
                book.templates,
                book.sheets,
                book.autofilter_is_on,
            );
            let rels = vstd::utf8::encode_utf8(
                crate::xlsb_xml::workbook_rels(book.sheets.len()),
            );
            let strings = crate::xlsb_parts::shared_strings_bin(
                book.tables.strings,
                book.tables.uses,
            );
            let styles = crate::xlsb_parts::styles_bin(
                book.templates.styles_bin_base,
                book.tables.formats,
            );
            &&& archive.contains(Part { name: "xl/workbook.bin"@, bytes: workbook })
            &&& archive.contains(Part { name: "xl/_rels/workbook.bin.rels"@, bytes: rels })
            &&& archive.contains(Part { name: "xl/sharedStrings.bin"@, bytes: strings })
            &&& archive.contains(Part { name: "xl/styles.bin"@, bytes: styles })
            &&& loaded(workbook, rels, strings, styles) matches Ok(reader) && {
                &&& reader.sheets.len() == book.sheets.len()
                &&& reader.sheets[i].name == book.sheets[i].name
                &&& reader.sheets[i].path == Some(crate::xlsb_writer::bin_sheet_path(i + 1))
                &&& reader.shared == book.tables.strings
                &&& reader.current == -1
            }
        }),
{
    let n = book.sheets.len();
    let t = book.templates;
    lemma_parts_stand(book);
    crate::xlsb_part_laws::law_sheet_names_read_back(
        t,
        book.sheets,
        book.autofilter_is_on,
        t.workbook_bin_middle + (if book.autofilter_is_on {
            crate::xlsb_parts::filter_section(t, book.sheets)
        } else {
            Seq::empty()
        }) + t.workbook_bin_end,
    );
    crate::xlsb_part_laws::law_shared_strings_read_back(book.tables.strings, book.tables.uses);
    crate::text::lemma_bytes_text(crate::xlsb_xml::workbook_rels(n));
    crate::relationship_laws::law_xlsb_sheets_are_located(n, i + 1);
    lemma_places(i + 1);
}

/// A sheet is listed with the id that its relationship has, and its part stands
/// where that leads.
proof fn lemma_places(n: int)
    ensures
        crate::xlsb_parts::sheet_rel_id(n) == crate::relationship_laws::relationship_id(n),
        crate::relationship_laws::sheet_path(n, ".bin"@) == crate::xlsb_writer::bin_sheet_path(n),
{
    reveal_strlit("xl/");
    reveal_strlit("worksheets/sheet");
    reveal_strlit("xl/worksheets/sheet");
    assert(crate::relationship_laws::sheet_path(n, ".bin"@)
        =~= crate::xlsb_writer::bin_sheet_path(n));
}

/// The parts that a reader loads stand in the archive.
proof fn lemma_parts_stand(book: XlsbBook)
    ensures
        ({
            let archive = book.archive();
            &&& archive.contains(
                Part {
                    name: "xl/workbook.bin"@,
                    bytes: crate::xlsb_parts::workbook_bin(
                        book.templates,
                        book.sheets,
                        book.autofilter_is_on,
                    ),
                },
            )
            &&& archive.contains(
                Part {
                    name: "xl/_rels/workbook.bin.rels"@,
                    bytes: vstd::utf8::encode_utf8(
                        crate::xlsb_xml::workbook_rels(book.sheets.len()),
                    ),
                },
            )
            &&& archive.contains(
                Part {
                    name: "xl/sharedStrings.bin"@,
                    bytes: crate::xlsb_parts::shared_strings_bin(
                        book.tables.strings,
                        book.tables.uses,
                    ),
                },
            )
            &&& archive.contains(
                Part {
                    name: "xl/styles.bin"@,
                    bytes: crate::xlsb_parts::styles_bin(
                        book.templates.styles_bin_base,
                        book.tables.formats,
                    ),
                },
            )
        }),
{
    let archive = book.archive();
    let e = book.entries.len() as int;
    let m = book.index_parts(book.sheets.len()).len() as int;
    assert(archive[e].name == "xl/sharedStrings.bin"@);
    assert(archive[e + 1].name == "xl/styles.bin"@);
    assert(archive[e + 2].name == "xl/workbook.bin"@);
    assert(archive[e + 3 + m + 1].name == "xl/_rels/workbook.bin.rels"@);
}

/// A workbook has come of another one by adding sheets and writing them: what was
/// there is still there.
pub open spec fn grows_from(later: XlsbBook, earlier: XlsbBook) -> bool {
    &&& earlier.entries.is_prefix_of(later.entries)
    &&& earlier.sheets.len() <= later.sheets.len()
    &&& forall|i: int|
        0 <= i < earlier.sheets.len() ==> (#[trigger] later.sheets[i]).name
            == earlier.sheets[i].name
    &&& earlier.tables.strings.is_prefix_of(later.tables.strings)
}

/// A workbook grows from one that has grown from another.
pub proof fn law_growth_adds_up(a: XlsbBook, b: XlsbBook, c: XlsbBook)
    requires
        grows_from(b, a),
        grows_from(c, b),
    ensures
        grows_from(a, a),
        grows_from(c, a),
{
    crate::xlsb_laws::lemma_prefix_trans(a.entries, b.entries, c.entries);
    crate::xlsb_laws::lemma_prefix_trans(a.tables.strings, b.tables.strings, c.tables.strings);
    assert forall|i: int| 0 <= i < a.sheets.len() implies (#[trigger] c.sheets[i]).name
        == a.sheets[i].name by {
        assert(b.sheets[i].name == a.sheets[i].name);
    }
}

/// Adding a sheet lets a workbook grow, and so does writing one at once.
pub proof fn law_written_sheets_stay(
    book: XlsbBook,
    name: Seq<char>,
    hidden: bool,
    columns: int,
    sheet: Seq<Seq<Cell>>,
    headers: Option<Seq<Seq<char>>>,
    do_autofilter: bool,
    numbers: NumberTable,
)
    ensures
        grows_from(book.with_sheet(name, hidden), book),
        book.sheets.len() > 0 && book.sheet_rows(columns, sheet, headers, numbers).complete
            ==> grows_from(
            book.with_written_sheet(columns, sheet, headers, do_autofilter, numbers),
            book,
        ),
{
    let page = Page { tables: book.tables, columns, headers, sheet, numbers };
    let n = sheet.len() as int;
    if page.rows(n).complete {
        crate::xlsb_laws::lemma_rows_prefix(page, 0, n);
        if let Some(h) = headers {
            crate::xlsb_laws::lemma_headers_prefix(book.tables, h, 0, h.len());
        }
        crate::xlsb_laws::lemma_prefix_trans(
            book.tables.strings,
            page.rows(0).tables.strings,
            page.rows(n).tables.strings,
        );
    }
}

/// A workbook that was written reads back. A sheet is written at once, others may
/// follow it, the archive is made, and a reader loads the parts of the archive and
/// begins the sheet: the archive holds the sheet's part under the path that the
/// reader has for it, entering it tells whether it has a line, every read gives the
/// next line, first the headers and then the rows, each cell as
/// [`value_back`](crate::xlsb_laws::value_back) says, and behind the last line the
/// sheet ends. The templates have to be whole records around what the writer puts
/// between them, and no text may have more than 2^20 - 3 code units.
pub proof fn law_written_book_reads_back(
    book: XlsbBook,
    columns: int,
    sheet: Seq<Seq<Cell>>,
    headers: Option<Seq<Seq<char>>>,
    do_autofilter: bool,
    numbers: NumberTable,
    later: XlsbBook,
    n: nat,
)
    requires
        book.sheets.len() > 0,
        grows_from(
            later,
            book.with_written_sheet(columns, sheet, headers, do_autofilter, numbers),
        ),
        later.tables.strings.len() <= 0x1_0000_0000,
        crate::xlsb_part_laws::all_short(later.tables.strings),
        crate::xlsb_parts::shared_strings_bin(later.tables.strings, later.tables.uses).len()
            <= usize::MAX,
        lists_its_sheets(later),
        has_styles(later),
        ({
            let page = Page { tables: book.tables, columns, headers, sheet, numbers };
            let after = book.with_written_sheet(columns, sheet, headers, do_autofilter, numbers);
            let filtered = do_autofilter && headers is Some && columns > 0;
            &&& page.fits()
            &&& page.rows(sheet.len() as int).complete
            &&& n <= page.lines()
            &&& after.entries.last().bytes.len() <= usize::MAX
            &&& crate::xlsb_laws::is_quiet(
                crate::xlsb_writer::sheet_head(
                    book.templates,
                    crate::xlsx_writer::fitted_widths(columns, headers, Some(sheet), numbers),
                    headers is Some,
                    book.sheets.len() == 1,
                ),
            )
            &&& crate::xlsb_laws::is_quiet(
                crate::xlsb_writer::sheet_tail(
                    book.templates,
                    filtered,
                    sheet.len() + 1int,
                    columns,
                ),
            )
        }),
    ensures
        ({
            let page = Page { tables: book.tables, columns, headers, sheet, numbers };
            let after = book.with_written_sheet(columns, sheet, headers, do_autofilter, numbers);
            let index = book.sheets.len() - 1;
            let part = after.entries.last().bytes;
            let reader = loaded(
                crate::xlsb_parts::workbook_bin(
                    later.templates,
                    later.sheets,
                    later.autofilter_is_on,
                ),
                vstd::utf8::encode_utf8(crate::xlsb_xml::workbook_rels(later.sheets.len())),
                crate::xlsb_parts::shared_strings_bin(later.tables.strings, later.tables.uses),
                crate::xlsb_parts::styles_bin(
                    later.templates.styles_bin_base,
                    later.tables.formats,
                ),
            )->Ok_0;
            let (start, entered) = reader.begun(index, part);
            let before = crate::xlsb_laws::after_reads(start, n);
            let (behind, read) = before.advanced();
            &&& reader.sheets[index].name == book.sheets[index].name
            &&& reader.sheets[index].path == Some(after.entries.last().name)
            &&& later.archive().contains(Part { name: after.entries.last().name, bytes: part })
            &&& entered == Ok::<bool, Seq<char>>(page.lines() > 0)
            &&& if n < page.lines() {
                read == Ok::<bool, Seq<char>>(true) && behind.row == page.line_back(
                    reader.info(),
                    n as int,
                )
            } else {
                read == Ok::<bool, Seq<char>>(false) && behind == before
            }
        }),
{
    let page = Page { tables: book.tables, columns, headers, sheet, numbers };
    let after = book.with_written_sheet(columns, sheet, headers, do_autofilter, numbers);
    let index = book.sheets.len() - 1;
    let filtered = do_autofilter && headers is Some && columns > 0;
    let head = crate::xlsb_writer::sheet_head(
        book.templates,
        crate::xlsx_writer::fitted_widths(columns, headers, Some(sheet), numbers),
        headers is Some,
        book.sheets.len() == 1,
    );
    let tail = crate::xlsb_writer::sheet_tail(
        book.templates,
        filtered,
        sheet.len() + 1int,
        columns,
    );
    law_written_book_is_loaded(later, index);
    lemma_part_stays(later, after);
    let reader = loaded(
        crate::xlsb_parts::workbook_bin(later.templates, later.sheets, later.autofilter_is_on),
        vstd::utf8::encode_utf8(crate::xlsb_xml::workbook_rels(later.sheets.len())),
        crate::xlsb_parts::shared_strings_bin(later.tables.strings, later.tables.uses),
        crate::xlsb_parts::styles_bin(later.templates.styles_bin_base, later.tables.formats),
    )->Ok_0;
    crate::xlsb_laws::law_written_part(book, columns, sheet, headers, do_autofilter, numbers);
    assert(later.sheets[index].name == after.sheets[index].name);
    assert(page.is_shared(reader.info()));
    crate::xlsb_laws::law_written_sheet_reads_back(reader, index, page, head, tail, n);
}

/// The part that was written last stays in the archive.
proof fn lemma_part_stays(later: XlsbBook, earlier: XlsbBook)
    requires
        earlier.entries.len() > 0,
        earlier.entries.is_prefix_of(later.entries),
    ensures
        later.archive().contains(earlier.entries.last()),
{
    let i = earlier.entries.len() - 1;
    assert(later.entries.take(earlier.entries.len() as int)[i] == later.entries[i]);
    assert(later.archive()[i] == earlier.entries.last());
}

} // verus!
