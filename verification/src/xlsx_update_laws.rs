//! What updating an XLSX workbook leaves as it was.

use vstd::prelude::*;
use crate::number::NumberTable;
use crate::xlsx_package::{StreamState, StyleFallback, XlsxPackage};

verus! {

/// A part that an update of a sheet does not touch: neither the sheet's own part
/// nor the shared strings, and no pivot cache or pivot table.
pub open spec fn is_untouched(book: XlsxPackage, path: Seq<char>, name: Seq<char>) -> bool {
    &&& name != path
    &&& name != "xl/sharedStrings.xml"@
    &&& forall|i: int| 0 <= i < book.caches.len() ==> (#[trigger] book.caches[i]).path != name
    &&& forall|i: int| 0 <= i < book.tables.len() ==> #[trigger] book.tables[i] != name
}

/// Two workbooks hold the same of a part.
pub open spec fn same_part(a: XlsxPackage, b: XlsxPackage, name: Seq<char>) -> bool {
    &&& a.parts.has(name) == b.parts.has(name)
    &&& a.parts.content(name) == b.parts.content(name)
}

/// A part is staged in one workbook as it is in the other.
pub open spec fn same_staged(a: XlsxPackage, b: XlsxPackage, name: Seq<char>) -> bool {
    &&& a.parts.staged.contains_key(name) == b.parts.staged.contains_key(name)
    &&& a.parts.staged.contains_key(name) ==> a.parts.staged[name] == b.parts.staged[name]
}

proof fn lemma_caches_keep(
    book: XlsxPackage,
    sheet: Seq<char>,
    dim: Seq<char>,
    records: int,
    n: nat,
    name: Seq<char>,
)
    requires
        n <= book.caches.len(),
        forall|i: int| 0 <= i < book.caches.len() ==> (#[trigger] book.caches[i]).path != name,
    ensures
        ({
            let done = book.with_caches(sheet, dim, records, n);
            &&& same_part(book, done, name)
            &&& same_staged(book, done, name)
            &&& done.tables == book.tables
            &&& done.sheets == book.sheets
            &&& done.strings == book.strings
            &&& done.uses_1904 == book.uses_1904
        }),
    decreases n,
{
    if n > 0 {
        lemma_caches_keep(book, sheet, dim, records, (n - 1) as nat, name);
        assert(book.caches[n - 1].path != name);
    }
}

proof fn lemma_tables_keep(book: XlsxPackage, n: nat, name: Seq<char>)
    requires
        n <= book.tables.len(),
        forall|i: int| 0 <= i < book.tables.len() ==> #[trigger] book.tables[i] != name,
    ensures
        ({
            let done = book.with_tables(n);
            &&& same_part(book, done, name)
            &&& same_staged(book, done, name)
            &&& done.tables == book.tables
            &&& done.sheets == book.sheets
            &&& done.strings == book.strings
            &&& done.uses_1904 == book.uses_1904
        }),
    decreases n,
{
    if n > 0 {
        lemma_tables_keep(book, (n - 1) as nat, name);
        assert(book.tables[n - 1] != name);
    }
}

pub proof fn lemma_settled_keeps(
    book: XlsxPackage,
    sheet: Seq<char>,
    dim: Seq<char>,
    records: int,
    path: Seq<char>,
    name: Seq<char>,
)
    requires
        is_untouched(book, path, name),
    ensures
        ({
            let done = book.settled(sheet, dim, records).book;
            &&& same_part(book, done, name)
            &&& same_staged(book, done, name)
            &&& done.sheets == book.sheets
            &&& done.uses_1904 == book.uses_1904
        }),
{
    let written = book.committed();
    assert(same_part(book, written.book, name));
    assert(same_staged(book, written.book, name));
    assert(written.book.caches == book.caches);
    if written.fault is None {
        lemma_caches_keep(written.book, sheet, dim, records, book.caches.len(), name);
        let moved = written.book.with_caches(sheet, dim, records, book.caches.len());
        lemma_tables_keep(moved, moved.tables.len(), name);
    }
}

/// Replacing the rows of a sheet, whether it succeeds or not, leaves every part
/// as it was but for the sheet's own, the shared strings, and the pivot caches and
/// tables. The sheets of the workbook and its date system stay too.
pub proof fn law_replacing_rows_keeps_other_parts(
    book: XlsxPackage,
    sheet: Seq<char>,
    rows: Seq<Seq<crate::formats::Cell>>,
    headers: Option<Seq<Seq<char>>>,
    fallback: StyleFallback,
    numbers: NumberTable,
    name: Seq<char>,
)
    requires
        book.sheets.paths.contains_key(sheet) ==> is_untouched(
            book,
            book.sheets.paths[sheet],
            name,
        ),
    ensures
        ({
            let done = book.replaced(sheet, rows, headers, fallback, numbers).book;
            &&& same_part(book, done, name)
            &&& done.sheets == book.sheets
            &&& done.uses_1904 == book.uses_1904
        }),
{
    let kept = crate::xlsx_package::kept_rows(rows);
    if let Ok(xml) = book.sheet_text(sheet) {
        if let Ok(ready) = book.released(xml) {
            if let Ok(looks) = ready.looks(xml, fallback) {
                let data = crate::xlsx_update_rows::sheet_data(
                    ready.strings,
                    headers,
                    kept,
                    looks,
                    numbers,
                );
                let filled = XlsxPackage { strings: data.strings, ..ready };
                let total = kept.len() + crate::xlsx_package::header_rows(headers);
                let columns = crate::xlsx_package::larger(
                    crate::xlsx_package::widest(kept),
                    crate::xlsx_package::header_width(headers),
                );
                if let Ok(text) = crate::xlsx_patch::patched_sheet(
                    xml,
                    data.xml,
                    total,
                    columns,
                ) {
                    let path = book.sheets.paths[sheet];
                    let stored = filled.put(path, text);
                    assert(same_part(book, stored, name));
                    assert(stored.caches == book.caches && stored.tables == book.tables);
                    lemma_settled_keeps(
                        stored,
                        sheet,
                        crate::xlsx_patch::range_ref(total, columns),
                        kept.len() as int,
                        path,
                        name,
                    );
                }
            }
        }
    }
}

/// The same holds of rows that came one by one.
pub proof fn law_streaming_rows_keeps_other_parts(
    book: XlsxPackage,
    stream: StreamState,
    output: Seq<char>,
    name: Seq<char>,
)
    requires
        is_untouched(book, stream.path, name),
    ensures
        ({
            let done = book.completed(stream, output).book;
            &&& same_part(book, done, name)
            &&& done.sheets == book.sheets
            &&& done.uses_1904 == book.uses_1904
        }),
{
    let staged = XlsxPackage { parts: book.parts.with_staged(stream.path, output), ..book };
    assert(same_part(book, staged, name));
    lemma_settled_keeps(staged, stream.sheet, stream.dim(), stream.kept, stream.path, name);
}

/// A source of rows that fails leaves no trace: whatever rows came before, the
/// shared strings and the bytes of every part are what they were.
pub proof fn law_failed_source_leaves_no_trace(
    book: XlsxPackage,
    sheet: Seq<char>,
    headers: Option<Seq<Seq<char>>>,
    fallback: StyleFallback,
    strings: crate::xlsx_update_rows::Strings,
    output: Seq<char>,
    rows: StreamState,
    name: Seq<char>,
)
    requires
        book.begun(sheet, headers, fallback) is Ok,
        ({
            let begun = book.begun(sheet, headers, fallback)->Ok_0;
            &&& rows == (StreamState {
                width: rows.width,
                seen: rows.seen,
                kept: rows.kept,
                pending_width: rows.pending_width,
                ..begun.stream
            })
            &&& begun.stream.path != "xl/sharedStrings.xml"@
        }),
        book.staged_file(rows.path) != Some(output),
    ensures
        ({
            let begun = book.begun(sheet, headers, fallback)->Ok_0;
            let filled = XlsxPackage { strings, ..begun.book };
            let restored = filled.rolled_back(rows, output);
            &&& restored.strings == book.strings
            &&& restored.sheets == book.sheets
            &&& restored.caches == book.caches
            &&& restored.tables == book.tables
            &&& same_part(book, restored, name)
        }),
{
    let begun = book.begun(sheet, headers, fallback)->Ok_0;
    assert(begun.book.parts == book.parts);
}

/// Where the shared strings are held in memory, a source of rows that fails leaves
/// the workbook exactly what it was, so that whatever is done with it afterwards
/// comes out as if no row had come: replacing rows, at once or one by one, and the
/// parts that are written in the end.
pub proof fn law_failed_source_is_undone(
    book: XlsxPackage,
    sheet: Seq<char>,
    headers: Option<Seq<Seq<char>>>,
    fallback: StyleFallback,
    strings: crate::xlsx_update_rows::Strings,
    output: Seq<char>,
    rows: StreamState,
)
    requires
        book.begun(sheet, headers, fallback) is Ok,
        ({
            let begun = book.begun(sheet, headers, fallback)->Ok_0;
            rows == (StreamState {
                width: rows.width,
                seen: rows.seen,
                kept: rows.kept,
                pending_width: rows.pending_width,
                ..begun.stream
            })
        }),
        !book.parts.staged.contains_key("xl/sharedStrings.xml"@),
        !book.parts.staged_order.contains("xl/sharedStrings.xml"@),
        book.staged_file(rows.path) != Some(output),
    ensures
        ({
            let begun = book.begun(sheet, headers, fallback)->Ok_0;
            (XlsxPackage { strings, ..begun.book }).rolled_back(rows, output) == book
        }),
{
    let begun = book.begun(sheet, headers, fallback)->Ok_0;
    let name = "xl/sharedStrings.xml"@;
    let filled = XlsxPackage { strings, ..begun.book };
    assert(begun.book.parts == book.parts);
    crate::name_map::lemma_all_kept(book.parts.staged_order, name);
    if book.parts.has(name) {
        let bytes = book.parts.content(name)->0;
        assert(book.parts.files.insert(name, bytes) =~= book.parts.files);
        assert(book.parts.staged.remove(name) =~= book.parts.staged);
        assert(book.parts.with_file(name, bytes) =~= book.parts);
    }
    assert(filled.rolled_back(rows, output) =~= book);
}

/// Rows that cannot be put in place leave no trace either: the shared strings are
/// what they were, and the sheet's part is staged in the file that it was staged
/// in before, or is not staged.
pub proof fn law_failed_update_leaves_no_trace(
    book: XlsxPackage,
    sheet: Seq<char>,
    headers: Option<Seq<Seq<char>>>,
    fallback: StyleFallback,
    strings: crate::xlsx_update_rows::Strings,
    output: Seq<char>,
    rows: StreamState,
    name: Seq<char>,
)
    requires
        book.begun(sheet, headers, fallback) is Ok,
        ({
            let begun = book.begun(sheet, headers, fallback)->Ok_0;
            &&& rows == (StreamState {
                width: rows.width,
                seen: rows.seen,
                kept: rows.kept,
                pending_width: rows.pending_width,
                ..begun.stream
            })
            &&& begun.stream.path != "xl/sharedStrings.xml"@
            &&& (XlsxPackage { strings, ..begun.book }).completed(rows, output).fault is Some
        }),
        book.staged_file(rows.path) != Some(output),
    ensures
        ({
            let begun = book.begun(sheet, headers, fallback)->Ok_0;
            let restored = (XlsxPackage { strings, ..begun.book }).completed(rows, output).book;
            &&& restored.strings == book.strings
            &&& restored.sheets == book.sheets
            &&& restored.caches == book.caches
            &&& restored.tables == book.tables
            &&& restored.staged_file(rows.path) == book.staged_file(rows.path)
            &&& name != rows.path ==> same_part(book, restored, name)
            &&& book.staged_file(rows.path) is None ==> same_part(book, restored, name)
        }),
{
    let begun = book.begun(sheet, headers, fallback)->Ok_0;
    let filled = XlsxPackage { strings, ..begun.book };
    assert(filled.parts == book.parts);
    let staged = XlsxPackage { parts: filled.parts.with_staged(rows.path, output), ..filled };
    let done = staged.settled(rows.sheet, rows.dim(), rows.kept);
    assert(done.book == staged);
}

} // verus!
