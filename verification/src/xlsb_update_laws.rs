//! What updating an XLSB workbook leaves as it was.

use vstd::prelude::*;
use crate::number::NumberTable;
use crate::xlsb_package::{BinStreamState, XlsbPackage};
use crate::xlsx_package::StyleFallback;

verus! {

/// A part that an update of a sheet does not touch: neither the sheet's own part
/// nor the shared strings, and no pivot cache.
pub open spec fn is_untouched(book: XlsbPackage, path: Seq<char>, name: Seq<char>) -> bool {
    &&& name != path
    &&& name != "xl/sharedStrings.bin"@
    &&& forall|i: int| 0 <= i < book.caches.len() ==> #[trigger] book.caches[i] != name
}

/// Two workbooks hold the same of a part.
pub open spec fn same_part(a: XlsbPackage, b: XlsbPackage, name: Seq<char>) -> bool {
    &&& a.parts.has(name) == b.parts.has(name)
    &&& a.parts.content(name) == b.parts.content(name)
}

proof fn lemma_caches_keep(
    book: XlsbPackage,
    sheet: Seq<char>,
    last_row: u32,
    last_col: u32,
    n: nat,
    name: Seq<char>,
)
    requires
        n <= book.caches.len(),
        forall|i: int| 0 <= i < book.caches.len() ==> #[trigger] book.caches[i] != name,
    ensures
        ({
            let done = book.with_caches(sheet, last_row, last_col, n).book;
            &&& same_part(book, done, name)
            &&& done.sheets == book.sheets
            &&& done.caches == book.caches
            &&& done.strings == book.strings
            &&& done.uses_1904 == book.uses_1904
        }),
    decreases n,
{
    if n > 0 {
        lemma_caches_keep(book, sheet, last_row, last_col, (n - 1) as nat, name);
        assert(book.caches[n - 1] != name);
    }
}

pub proof fn lemma_settled_keeps(
    book: XlsbPackage,
    sheet: Seq<char>,
    last_row: u32,
    last_col: u32,
    path: Seq<char>,
    name: Seq<char>,
)
    requires
        is_untouched(book, path, name),
    ensures
        ({
            let done = book.settled(sheet, last_row, last_col).book;
            &&& same_part(book, done, name)
            &&& done.sheets == book.sheets
            &&& done.caches == book.caches
            &&& done.strings.values == book.strings.values
            &&& done.strings.part is Some == book.strings.part is Some
            &&& done.uses_1904 == book.uses_1904
        }),
{
    let written = book.committed();
    assert(same_part(book, written.book, name));
    assert(written.book.caches == book.caches);
    if written.fault is None {
        lemma_caches_keep(written.book, sheet, last_row, last_col, book.caches.len(), name);
    }
}

/// Replacing the rows of a sheet, whether it succeeds or not, leaves every part
/// as it was but for the sheet's own, the shared strings, and the pivot caches.
/// The sheets of the workbook and its date system stay too.
pub proof fn law_replacing_rows_keeps_other_parts(
    book: XlsbPackage,
    sheet: Seq<char>,
    rows: Seq<Seq<crate::formats::Cell>>,
    headers: Option<Seq<Seq<char>>>,
    fallback: StyleFallback,
    numbers: NumberTable,
    name: Seq<char>,
)
    requires
        book.sheets.paths.contains_key(sheet) ==> is_untouched(
            book,
            book.sheets.paths[sheet],
            name,
        ),
    ensures
        ({
            let done = book.replaced(sheet, rows, headers, fallback, numbers).book;
            &&& same_part(book, done, name)
            &&& done.sheets == book.sheets
            &&& done.uses_1904 == book.uses_1904
        }),
{
    let kept = crate::xlsx_package::kept_rows(rows);
    if let Ok(bytes) = book.sheet_bytes(sheet) {
        if let Ok(ready) = book.released(bytes) {
            if let Ok(looks) = ready.looks(bytes, fallback) {
                let total = kept.len() + crate::xlsx_package::header_rows(headers);
                let columns = crate::xlsx_package::larger(
                    crate::xlsx_package::widest(kept),
                    crate::xlsx_package::header_width(headers),
                );
                let last_col = if columns > 0 {
                    columns - 1
                } else {
                    0
                };
                let data = crate::xlsb_update_rows::sheet_rows(
                    ready.strings,
                    headers,
                    kept,
                    last_col,
                    looks,
                    numbers,
                );
                let filled = XlsbPackage { strings: data.strings, ..ready };
                let row = crate::xlsb_package::last_of(total);
                let col = crate::xlsb_package::last_of(columns);
                if let Ok(new) = crate::xlsb_patch::patched_sheet(bytes, data.bytes, row, col) {
                    let path = book.sheets.paths[sheet];
                    let stored = filled.put(path, new);
                    assert(same_part(book, stored, name));
                    lemma_settled_keeps(stored, sheet, row, col, path, name);
                }
            }
        }
    }
}

/// The same holds of rows that came one by one.
pub proof fn law_streaming_rows_keeps_other_parts(
    book: XlsbPackage,
    stream: BinStreamState,
    output: Seq<char>,
    name: Seq<char>,
)
    requires
        is_untouched(book, stream.path, name),
    ensures
        ({
            let done = book.completed(stream, output).book;
            &&& same_part(book, done, name)
            &&& done.sheets == book.sheets
            &&& done.uses_1904 == book.uses_1904
        }),
{
    let staged = XlsbPackage { parts: book.parts.with_staged(stream.path, output), ..book };
    assert(same_part(book, staged, name));
    lemma_settled_keeps(
        staged,
        stream.sheet,
        stream.last_row(),
        stream.last_col(),
        stream.path,
        name,
    );
}

/// A source of rows that fails leaves no trace: whatever rows came before, the
/// shared strings and the bytes of every part are what they were.
pub proof fn law_failed_source_leaves_no_trace(
    book: XlsbPackage,
    sheet: Seq<char>,
    headers: Option<Seq<Seq<char>>>,
    fallback: StyleFallback,
    strings: crate::xlsb_update_rows::BinStrings,
    output: Seq<char>,
    rows: BinStreamState,
    name: Seq<char>,
)
    requires
        book.begun(sheet, headers, fallback) is Ok,
        ({
            let begun = book.begun(sheet, headers, fallback)->Ok_0;
            &&& rows == (BinStreamState {
                width: rows.width,
                seen: rows.seen,
                kept: rows.kept,
                pending_width: rows.pending_width,
                ..begun.stream
            })
            &&& begun.stream.path != "xl/sharedStrings.bin"@
        }),
        book.staged_file(rows.path) != Some(output),
    ensures
        ({
            let begun = book.begun(sheet, headers, fallback)->Ok_0;
            let filled = XlsbPackage { strings, ..begun.book };
            let restored = filled.rolled_back(rows, output);
            &&& restored.strings == book.strings
            &&& restored.sheets == book.sheets
            &&& restored.caches == book.caches
            &&& same_part(book, restored, name)
        }),
{
    let begun = book.begun(sheet, headers, fallback)->Ok_0;
    assert(begun.book.parts == book.parts);
}

/// Where the shared strings are held in memory, a source of rows that fails leaves
/// the workbook exactly what it was, so that whatever is done with it afterwards
/// comes out as if no row had come: replacing rows, at once or one by one, and the
/// parts that are written in the end.
pub proof fn law_failed_source_is_undone(
    book: XlsbPackage,
    sheet: Seq<char>,
    headers: Option<Seq<Seq<char>>>,
    fallback: StyleFallback,
    strings: crate::xlsb_update_rows::BinStrings,
    output: Seq<char>,
    rows: BinStreamState,
)
    requires
        book.begun(sheet, headers, fallback) is Ok,
        ({
            let begun = book.begun(sheet, headers, fallback)->Ok_0;
            rows == (BinStreamState {
                width: rows.width,
                seen: rows.seen,
                kept: rows.kept,
                pending_width: rows.pending_width,
                ..begun.stream
            })
        }),
        !book.parts.staged.contains_key("xl/sharedStrings.bin"@),
        !book.parts.staged_order.contains("xl/sharedStrings.bin"@),
        book.staged_file(rows.path) != Some(output),
    ensures
        ({
            let begun = book.begun(sheet, headers, fallback)->Ok_0;
            (XlsbPackage { strings, ..begun.book }).rolled_back(rows, output) == book
        }),
{
    let begun = book.begun(sheet, headers, fallback)->Ok_0;
    let name = "xl/sharedStrings.bin"@;
    let filled = XlsbPackage { strings, ..begun.book };
    assert(begun.book.parts == book.parts);
    crate::name_map::lemma_all_kept(book.parts.staged_order, name);
    if book.parts.has(name) {
        let bytes = book.parts.content(name)->0;
        assert(book.parts.files.insert(name, bytes) =~= book.parts.files);
        assert(book.parts.staged.remove(name) =~= book.parts.staged);
        assert(book.parts.with_file(name, bytes) =~= book.parts);
    }
    assert(filled.rolled_back(rows, output) =~= book);
}

/// Rows that cannot be put in place leave no trace but in the pivot caches: the
/// shared strings are what they were, and the sheet's part is staged in the file
/// that it was staged in before, or is not staged.
pub proof fn law_failed_update_leaves_no_trace(
    book: XlsbPackage,
    sheet: Seq<char>,
    headers: Option<Seq<Seq<char>>>,
    fallback: StyleFallback,
    strings: crate::xlsb_update_rows::BinStrings,
    output: Seq<char>,
    rows: BinStreamState,
    name: Seq<char>,
)
    requires
        book.begun(sheet, headers, fallback) is Ok,
        ({
            let begun = book.begun(sheet, headers, fallback)->Ok_0;
            &&& rows == (BinStreamState {
                width: rows.width,
                seen: rows.seen,
                kept: rows.kept,
                pending_width: rows.pending_width,
                ..begun.stream
            })
            &&& begun.stream.path != "xl/sharedStrings.bin"@
            &&& (XlsbPackage { strings, ..begun.book }).completed(rows, output).fault is Some
            &&& book.strings_part() is None ==> strings.part is None
            &&& forall|i: int|
                0 <= i < book.caches.len() ==> #[trigger] book.caches[i] != rows.path
            &&& forall|i: int| 0 <= i < book.caches.len() ==> #[trigger] book.caches[i] != name
        }),
        book.staged_file(rows.path) != Some(output),
    ensures
        ({
            let begun = book.begun(sheet, headers, fallback)->Ok_0;
            let restored = (XlsbPackage { strings, ..begun.book }).completed(rows, output).book;
            &&& restored.strings == book.strings
            &&& restored.sheets == book.sheets
            &&& restored.caches == book.caches
            &&& restored.staged_file(rows.path) == book.staged_file(rows.path)
            &&& name != rows.path ==> same_part(book, restored, name)
            &&& book.staged_file(rows.path) is None ==> same_part(book, restored, name)
        }),
{
    let begun = book.begun(sheet, headers, fallback)->Ok_0;
    let filled = XlsbPackage { strings, ..begun.book };
    assert(filled.parts == book.parts);
    assert(filled.sheets == book.sheets && filled.caches == book.caches);
    lemma_restored(book, filled, rows, output, name);
}

/// Two workbooks hold the same of a part, in memory and staged.
spec fn same_storage(a: XlsbPackage, b: XlsbPackage, name: Seq<char>) -> bool {
    &&& a.parts.files.contains_key(name) == b.parts.files.contains_key(name)
    &&& a.parts.files.contains_key(name) ==> a.parts.files[name] == b.parts.files[name]
    &&& a.parts.staged.contains_key(name) == b.parts.staged.contains_key(name)
    &&& a.parts.staged.contains_key(name) ==> a.parts.staged[name] == b.parts.staged[name]
}

/// Settling leaves a part that is no pivot cache as it was, unless it is that of
/// the shared strings and there are any.
proof fn lemma_settled_storage(
    book: XlsbPackage,
    sheet: Seq<char>,
    last_row: u32,
    last_col: u32,
    name: Seq<char>,
)
    requires
        forall|i: int| 0 <= i < book.caches.len() ==> #[trigger] book.caches[i] != name,
        name == "xl/sharedStrings.bin"@ ==> book.strings.part is None,
    ensures
        ({
            let done = book.settled(sheet, last_row, last_col).book;
            &&& same_storage(book, done, name)
            &&& done.sheets == book.sheets
            &&& done.caches == book.caches
        }),
{
    let written = book.committed();
    assert(same_storage(book, written.book, name));
    assert(written.book.caches == book.caches);
    if written.fault is None {
        lemma_caches_keep_all(written.book, sheet, last_row, last_col, book.caches.len(), name);
    }
}

#[verifier::spinoff_prover]
proof fn lemma_restored(
    book: XlsbPackage,
    filled: XlsbPackage,
    rows: BinStreamState,
    output: Seq<char>,
    name: Seq<char>,
)
    requires
        filled.parts == book.parts,
        filled.sheets == book.sheets,
        filled.caches == book.caches,
        rows.strings_before == book.strings,
        rows.strings_part == book.strings_part(),
        book.parts.has("xl/sharedStrings.bin"@) ==> book.strings_part() is Some,
        rows.staged_before == book.staged_file(rows.path),
        rows.path != "xl/sharedStrings.bin"@,
        filled.completed(rows, output).fault is Some,
        book.strings_part() is None ==> filled.strings.part is None,
        forall|i: int| 0 <= i < book.caches.len() ==> #[trigger] book.caches[i] != rows.path,
        forall|i: int| 0 <= i < book.caches.len() ==> #[trigger] book.caches[i] != name,
        book.staged_file(rows.path) != Some(output),
    ensures
        ({
            let restored = filled.completed(rows, output).book;
            &&& restored.strings == book.strings
            &&& restored.sheets == book.sheets
            &&& restored.caches == book.caches
            &&& restored.staged_file(rows.path) == book.staged_file(rows.path)
            &&& name != rows.path ==> same_part(book, restored, name)
            &&& book.staged_file(rows.path) is None ==> same_part(book, restored, name)
        }),
{
    let strings_name = "xl/sharedStrings.bin"@;
    let staged = XlsbPackage { parts: filled.parts.with_staged(rows.path, output), ..filled };
    let row = rows.last_row();
    let col = rows.last_col();
    let done = staged.settled(rows.sheet, row, col).book;
    lemma_settled_storage(staged, rows.sheet, row, col, rows.path);
    if name != strings_name || staged.strings.part is None {
        lemma_settled_storage(staged, rows.sheet, row, col, name);
    }
    let put_back = match rows.strings_part {
        Some(bytes) => done.put(strings_name, bytes),
        None => done,
    };
    assert(same_storage(done, put_back, rows.path));
    assert(put_back.parts.staged.contains_key(rows.path)
        && put_back.parts.staged[rows.path].path == output);
    if name != rows.path {
        assert(same_part(book, put_back, name));
    }
}

/// Bringing pivot caches in step leaves a part that is none of them as it was in
/// memory and as it was staged.
proof fn lemma_caches_keep_all(
    book: XlsbPackage,
    sheet: Seq<char>,
    last_row: u32,
    last_col: u32,
    n: nat,
    name: Seq<char>,
)
    requires
        n <= book.caches.len(),
        forall|i: int| 0 <= i < book.caches.len() ==> #[trigger] book.caches[i] != name,
    ensures
        ({
            let done = book.with_caches(sheet, last_row, last_col, n).book;
            &&& done.parts.files.contains_key(name) == book.parts.files.contains_key(name)
            &&& done.parts.files.contains_key(name) ==> done.parts.files[name]
                == book.parts.files[name]
            &&& done.parts.staged.contains_key(name) == book.parts.staged.contains_key(name)
            &&& done.parts.staged.contains_key(name) ==> done.parts.staged[name]
                == book.parts.staged[name]
            &&& done.sheets == book.sheets
            &&& done.caches == book.caches
        }),
    decreases n,
{
    if n > 0 {
        lemma_caches_keep_all(book, sheet, last_row, last_col, (n - 1) as nat, name);
        assert(book.caches[n - 1] != name);
    }
}

} // verus!
