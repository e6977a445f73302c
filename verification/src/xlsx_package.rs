//! What an XLSX workbook that is updated stands for, and what each operation
//! makes of it.

use vstd::prelude::*;
use crate::error::SpreadsheetError;
use crate::number::NumberTable;
use crate::xlsx_update_rows::{Looks, Strings};
use crate::zip_store::Parts;

verus! {

/// Style strategy for replacement cells.
#[derive(Debug, Clone, Copy, PartialEq, Eq, Structural)]
pub enum StyleFallback {
    /// New cells take over the most common style of their column.
    Inherit,
    /// All new cells have style 0.
    General,
}

impl Default for StyleFallback {
    fn default() -> (r: Self)
        ensures
            r == StyleFallback::Inherit,
    {
        StyleFallback::Inherit
    }
}

/// Options for replacing the rows of a sheet.
#[derive(Debug, Clone)]
pub struct ReplaceSheetDataOptions {
    /// Header row written into the first row of the sheet. Without one the data
    /// rows start there.
    pub headers: Option<Vec<String>>,
    pub style_fallback: StyleFallback,
}

impl Default for ReplaceSheetDataOptions {
    fn default() -> (r: Self)
        ensures
            r.headers is None,
            r.style_fallback == StyleFallback::Inherit,
    {
        ReplaceSheetDataOptions { headers: None, style_fallback: StyleFallback::Inherit }
    }
}

/// What can keep an operation from succeeding.
pub enum Fault {
    /// There is no sheet, which the message says.
    NoSheet(Seq<char>),
    /// A part is malformed or missing, which the message says.
    Malformed(Seq<char>),
    /// The bytes of a part are not at hand.
    NoPart(Seq<char>),
}

impl Fault {
    /// The error that reports the fault.
    pub open spec fn is_reported(self, e: SpreadsheetError, parts: Parts) -> bool {
        match self {
            Fault::NoSheet(message) => e.misses(message),
            Fault::Malformed(message) => e.says(message),
            Fault::NoPart(name) => parts.lacks(name, e),
        }
    }
}

/// A row whose cells are all empty.
pub open spec fn is_blank(row: Seq<crate::formats::Cell>) -> bool {
    forall|i: int|
        0 <= i < row.len() ==> (#[trigger] row[i]).value is Empty && row[i].format is None
}

/// The rows without the empty ones at their end.
pub open spec fn kept_rows(rows: Seq<Seq<crate::formats::Cell>>) -> Seq<Seq<crate::formats::Cell>>
    decreases rows.len(),
{
    if rows.len() > 0 && is_blank(rows.last()) {
        kept_rows(rows.drop_last())
    } else {
        rows
    }
}

pub open spec fn larger(a: int, b: int) -> int {
    if a < b {
        b
    } else {
        a
    }
}

/// The length of the longest of rows.
pub open spec fn widest(rows: Seq<Seq<crate::formats::Cell>>) -> int
    decreases rows.len(),
{
    if rows.len() == 0 {
        0
    } else {
        larger(widest(rows.drop_last()), rows.last().len() as int)
    }
}

/// The number of headers.
pub open spec fn header_width(headers: Option<Seq<Seq<char>>>) -> int {
    match headers {
        Some(h) => h.len() as int,
        None => 0,
    }
}

/// The number of header rows.
pub open spec fn header_rows(headers: Option<Seq<Seq<char>>>) -> int {
    if headers is Some {
        1
    } else {
        0
    }
}

/// The path of a sheet's part: a target with a slash in front is the path behind
/// the slash, any other one is below `xl/`.
pub open spec fn sheet_part_path(target: Seq<char>) -> Seq<char> {
    if target.len() > 0 && target[0] == '/' {
        target.skip(1)
    } else if crate::xml_utils::stands_at(target, "xl/"@, 0) {
        target
    } else {
        "xl/"@ + target
    }
}

/// The sheets of a workbook: their names in order, and the paths of their parts.
#[verifier::ext_equal]
pub struct SheetPaths {
    pub order: Seq<Seq<char>>,
    pub paths: Map<Seq<char>, Seq<char>>,
}

impl SheetPaths {
    /// The sheets with one more, unless its part has no path.
    pub open spec fn with_sheet(self, name: Seq<char>, path: Seq<char>) -> SheetPaths {
        if path.len() == 0 {
            self
        } else {
            SheetPaths { order: self.order.push(name), paths: self.paths.insert(name, path) }
        }
    }
}

/// The target of a relationship, nothing where there is none.
pub open spec fn target_of(rels: Map<Seq<char>, Seq<char>>, id: Seq<char>) -> Seq<char> {
    if rels.contains_key(id) {
        rels[id]
    } else {
        Seq::empty()
    }
}

/// The sheets that the workbook document names from `from` on, added to those
/// already met.
pub open spec fn sheets_from(
    xml: Seq<char>,
    from: int,
    rels: Map<Seq<char>, Seq<char>>,
    known: SheetPaths,
) -> SheetPaths
    decreases xml.len() - from,
    when 0 <= from
{
    proof {
        crate::xml_tags::lemma_open_tag(xml, from, "sheet"@);
    }
    match crate::xml_tags::open_tag_from(xml, from, "sheet"@) {
        None => known,
        Some((start, end)) => {
            let tag = xml.subrange(start, end);
            sheets_from(
                xml,
                end,
                rels,
                match (
                    crate::xml_tags::attribute(tag, "name"@),
                    crate::xml_tags::attribute(tag, "r:id"@),
                ) {
                    (Some(name), Some(id)) => known.with_sheet(
                        crate::xml_utils::unescaped_text(name),
                        sheet_part_path(target_of(rels, id)),
                    ),
                    _ => known,
                },
            )
        },
    }
}

/// The definition of a pivot cache: its part and its document.
pub struct CacheDef {
    pub path: Seq<char>,
    pub xml: Seq<char>,
}

/// The text of a part, nothing where its bytes are not at hand.
pub open spec fn part_text(parts: Parts, name: Seq<char>) -> Seq<char> {
    crate::text::bytes_text(
        match parts.content(name) {
            Some(bytes) => bytes,
            None => Seq::empty(),
        },
    )
}

pub open spec fn is_cache(name: Seq<char>) -> bool {
    crate::xlsx_patch::is_numbered(name, "xl/pivotCache/pivotCacheDefinition"@, ".xml"@)
}

pub open spec fn is_table(name: Seq<char>) -> bool {
    crate::xlsx_patch::is_numbered(name, "xl/pivotTables/pivotTable"@, ".xml"@)
}

/// The pivot caches among the first `n` names.
pub open spec fn caches_of(parts: Parts, names: Seq<Seq<char>>, n: nat) -> Seq<CacheDef>
    decreases n,
{
    if n == 0 {
        Seq::empty()
    } else if is_cache(names[n - 1]) {
        caches_of(parts, names, (n - 1) as nat).push(
            CacheDef { path: names[n - 1], xml: part_text(parts, names[n - 1]) },
        )
    } else {
        caches_of(parts, names, (n - 1) as nat)
    }
}

/// The pivot tables among the first `n` names.
pub open spec fn tables_of(names: Seq<Seq<char>>, n: nat) -> Seq<Seq<char>>
    decreases n,
{
    if n == 0 {
        Seq::empty()
    } else if !is_cache(names[n - 1]) && is_table(names[n - 1]) {
        tables_of(names, (n - 1) as nat).push(names[n - 1])
    } else {
        tables_of(names, (n - 1) as nat)
    }
}

/// A workbook that is updated: its parts, its sheets, its pivot caches and tables,
/// its shared strings, its date system, and the files that are no longer needed.
#[verifier::ext_equal]
pub struct XlsxPackage {
    pub parts: Parts,
    pub sheets: SheetPaths,
    pub caches: Seq<CacheDef>,
    pub tables: Seq<Seq<char>>,
    pub strings: Strings,
    pub uses_1904: bool,
    pub obsolete: Seq<Seq<char>>,
}

/// What an operation leads to: the workbook behind it, and what kept it from
/// succeeding.
pub struct Outcome {
    pub book: XlsxPackage,
    pub fault: Option<Fault>,
}

/// The workbook that an archive holds.
pub open spec fn opened(parts: Parts) -> XlsxPackage {
    let rels = crate::relationships::relationships(
        part_text(parts, "xl/_rels/workbook.xml.rels"@),
    );
    let workbook = part_text(parts, "xl/workbook.xml"@);
    let names = parts.names();
    XlsxPackage {
        parts,
        sheets: sheets_from(
            workbook,
            0,
            rels,
            SheetPaths { order: Seq::empty(), paths: Map::empty() },
        ),
        caches: caches_of(parts, names, names.len()),
        tables: tables_of(names, names.len()),
        strings: crate::xlsx_update_rows::no_strings(),
        uses_1904: crate::xml_documents::date_system(
            crate::xml_documents::text_events(workbook),
        ),
        obsolete: Seq::empty(),
    }
}

/// Why an archive holds no workbook that can be updated.
pub open spec fn refused(parts: Parts) -> Option<Seq<char>> {
    if parts.has("xl/workbook.bin"@) {
        Some(
            "XlsxUpdater: XLSB files are not supported yet. Convert the workbook to XLSX first."@,
        )
    } else if !parts.has("xl/workbook.xml"@) {
        Some("XlsxUpdater: not a valid XLSX workbook (xl/workbook.xml missing)."@)
    } else {
        None
    }
}

/// The message for a sheet that is not there.
pub open spec fn no_sheet(sheet: Seq<char>) -> Seq<char> {
    "XlsxUpdater: sheet \""@ + sheet + "\" not found in the workbook."@
}

/// The message for a sheet whose part is not there.
pub open spec fn no_sheet_part(sheet: Seq<char>) -> Seq<char> {
    "XlsxUpdater: worksheet part missing for sheet \""@ + sheet + "\"."@
}

/// How many cells point at the shared strings, by the document that holds them.
pub open spec fn stated_count(xml: Seq<char>, found: int) -> int {
    match crate::xml_patch::tag_from(xml, 0, "sst"@) {
        None => found,
        Some(t) => match crate::xml_tags::attribute(xml.subrange(t.start, t.end), "count"@) {
            None => found,
            Some(text) => match crate::xml_patch::unsigned_decimal(text, usize::MAX as nat) {
                Some(n) => n as int,
                None => found,
            },
        },
    }
}

/// The shared strings that a document holds.
pub open spec fn strings_in(xml: Seq<char>) -> Strings {
    let values = crate::xml_documents::shared_strings_in(xml);
    Strings {
        xml: Some(xml),
        values,
        count: stated_count(xml, values.len() as int),
        pending: Seq::empty(),
        dirty: false,
    }
}

impl XlsxPackage {
    /// The workbook with a part replaced. The file of a staged part that is
    /// replaced is no longer needed.
    pub open spec fn put(self, name: Seq<char>, text: Seq<char>) -> XlsxPackage {
        self.put_bytes(name, vstd::utf8::encode_utf8(text))
    }

    pub open spec fn put_bytes(self, name: Seq<char>, data: Seq<u8>) -> XlsxPackage {
        XlsxPackage {
            parts: self.parts.with_file(name, data),
            obsolete: if self.parts.staged.contains_key(name) {
                self.obsolete.push(self.parts.staged[name].path)
            } else {
                self.obsolete
            },
            ..self
        }
    }

    /// The part of a sheet.
    pub open spec fn located(self, sheet: Seq<char>) -> Result<Seq<char>, Fault> {
        if !self.sheets.paths.contains_key(sheet) {
            Err(Fault::NoSheet(no_sheet(sheet)))
        } else if !self.parts.has(self.sheets.paths[sheet]) {
            Err(Fault::Malformed(no_sheet_part(sheet)))
        } else {
            Ok(self.sheets.paths[sheet])
        }
    }

    /// The document of a sheet.
    pub open spec fn sheet_text(self, sheet: Seq<char>) -> Result<Seq<char>, Fault> {
        match self.located(sheet) {
            Err(fault) => Err(fault),
            Ok(path) => if self.parts.content(path) is Some {
                Ok(part_text(self.parts, path))
            } else {
                Err(Fault::NoPart(path))
            },
        }
    }

    /// The shared strings, read from their part where that has not been done yet.
    pub open spec fn loaded_strings(self) -> Result<Strings, Fault> {
        if self.strings.values.len() > 0 || self.strings.xml is Some || !self.parts.has(
            "xl/sharedStrings.xml"@,
        ) {
            Ok(self.strings)
        } else if self.parts.content("xl/sharedStrings.xml"@) is None {
            Err(Fault::NoPart("xl/sharedStrings.xml"@))
        } else {
            Ok(strings_in(part_text(self.parts, "xl/sharedStrings.xml"@)))
        }
    }

    /// The style for dates that the workbook offers.
    pub open spec fn date_style(self) -> Result<Option<int>, Fault> {
        if !self.parts.has("xl/styles.xml"@) {
            Ok(None)
        } else if self.parts.content("xl/styles.xml"@) is None {
            Err(Fault::NoPart("xl/styles.xml"@))
        } else {
            match crate::xlsx_styles::date_style(part_text(self.parts, "xl/styles.xml"@)) {
                Ok(style) => Ok(style),
                Err(message) => Err(Fault::Malformed(message)),
            }
        }
    }

    /// The looks that new cells of a sheet take over.
    pub open spec fn looks(self, xml: Seq<char>, fallback: StyleFallback) -> Result<Looks, Fault> {
        if fallback == StyleFallback::General {
            Ok(Looks { cells: Seq::empty(), date: None })
        } else {
            match self.date_style() {
                Ok(date) => Ok(Looks { cells: crate::xlsx_styles::styled_cells(xml), date }),
                Err(fault) => Err(fault),
            }
        }
    }

    /// The workbook ready to take new rows into a sheet: with its shared strings
    /// read, and without the cells of the sheet that pointed at them.
    pub open spec fn released(self, xml: Seq<char>) -> Result<XlsxPackage, Fault> {
        match self.loaded_strings() {
            Err(fault) => Err(fault),
            Ok(strings) => Ok(
                XlsxPackage {
                    strings: strings.released(
                        crate::xlsx_styles::string_refs_from(xml, 0) as int,
                    ),
                    ..self
                },
            ),
        }
    }

    /// The workbook with the document of the shared strings written anew where it
    /// has to be.
    pub open spec fn committed(self) -> Outcome {
        if self.strings.xml is None || !self.strings.dirty {
            Outcome { book: self, fault: None }
        } else {
            match crate::xlsx_patch::committed_strings(
                self.strings.xml->0,
                self.strings.count,
                self.strings.values.len() as int,
                self.strings.pending,
            ) {
                Err(message) => Outcome { book: self, fault: Some(Fault::Malformed(message)) },
                Ok(text) => Outcome {
                    book: XlsxPackage {
                        strings: Strings {
                            xml: Some(text),
                            pending: Seq::empty(),
                            dirty: false,
                            ..self.strings
                        },
                        ..self.put("xl/sharedStrings.xml"@, text)
                    },
                    fault: None,
                },
            }
        }
    }

    /// The workbook with the first `n` pivot caches in step with new rows of a
    /// sheet.
    pub open spec fn with_caches(
        self,
        sheet: Seq<char>,
        dim: Seq<char>,
        records: int,
        n: nat,
    ) -> XlsxPackage
        decreases n,
    {
        if n == 0 {
            self
        } else {
            let before = self.with_caches(sheet, dim, records, (n - 1) as nat);
            let cache = self.caches[n - 1];
            match crate::xlsx_patch::updated_cache(cache.xml, sheet, dim, records) {
                None => before,
                Some(xml) => XlsxPackage {
                    caches: before.caches.update(n - 1, CacheDef { path: cache.path, xml }),
                    ..before.put(cache.path, xml)
                },
            }
        }
    }

    /// The workbook with the first `n` pivot tables to be refreshed when it is
    /// opened.
    pub open spec fn with_tables(self, n: nat) -> XlsxPackage
        decreases n,
    {
        if n == 0 {
            self
        } else {
            let before = self.with_tables((n - 1) as nat);
            let path = self.tables[n - 1];
            if before.parts.content(path) is None {
                before
            } else {
                match crate::xlsx_patch::refreshed_table(part_text(before.parts, path)) {
                    None => before,
                    Some(xml) => before.put(path, xml),
                }
            }
        }
    }

    /// The workbook after the rows of a sheet have been replaced: its shared
    /// strings written, its pivot caches and tables in step.
    pub open spec fn settled(self, sheet: Seq<char>, dim: Seq<char>, records: int) -> Outcome {
        let written = self.committed();
        if written.fault is Some {
            written
        } else {
            let moved = written.book.with_caches(
                sheet,
                dim,
                records,
                written.book.caches.len(),
            );
            Outcome { book: moved.with_tables(moved.tables.len()), fault: None }
        }
    }

    /// The workbook after the rows of a sheet have been replaced at once.
    pub open spec fn replaced(
        self,
        sheet: Seq<char>,
        all_rows: Seq<Seq<crate::formats::Cell>>,
        headers: Option<Seq<Seq<char>>>,
        fallback: StyleFallback,
        numbers: NumberTable,
    ) -> Outcome {
        let rows = kept_rows(all_rows);
        match self.sheet_text(sheet) {
            Err(fault) => Outcome { book: self, fault: Some(fault) },
            Ok(xml) => match self.released(xml) {
                Err(fault) => Outcome { book: self, fault: Some(fault) },
                Ok(ready) => match ready.looks(xml, fallback) {
                    Err(fault) => Outcome { book: ready, fault: Some(fault) },
                    Ok(looks) => {
                        let data = crate::xlsx_update_rows::sheet_data(
                            ready.strings,
                            headers,
                            rows,
                            looks,
                            numbers,
                        );
                        let filled = XlsxPackage { strings: data.strings, ..ready };
                        let total = rows.len() + header_rows(headers);
                        let columns = larger(widest(rows), header_width(headers));
                        match crate::xlsx_patch::patched_sheet(xml, data.xml, total, columns) {
                            Err(message) => Outcome {
                                book: filled,
                                fault: Some(Fault::Malformed(message)),
                            },
                            Ok(text) => filled.put(self.sheets.paths[sheet], text).settled(
                                sheet,
                                crate::xlsx_patch::range_ref(total, columns),
                                rows.len() as int,
                            ),
                        }
                    },
                },
            },
        }
    }
}

/// Rows that are handed over one by one: the sheet they go into, its part and its
/// document, the looks of the new cells, the prefix of the row elements, what to
/// go back to, and how far the rows have come. A row that is empty counts only
/// once one that is not empty follows.
pub struct StreamState {
    pub sheet: Seq<char>,
    pub path: Seq<char>,
    pub xml: Seq<char>,
    pub looks: Looks,
    pub prefix: Seq<char>,
    pub strings_before: Strings,
    pub strings_part: Option<Seq<u8>>,
    pub staged_before: Option<Seq<char>>,
    pub has_headers: bool,
    pub width: int,
    pub seen: int,
    pub kept: int,
    pub pending_width: int,
}

impl StreamState {
    pub open spec fn header_rows(self) -> int {
        if self.has_headers {
            1
        } else {
            0
        }
    }

    /// The rows that stay, the header row among them.
    pub open spec fn total_rows(self) -> int {
        self.kept + self.header_rows()
    }

    /// The range that the rows that stay use.
    pub open spec fn dim(self) -> Seq<char> {
        crate::xlsx_patch::range_ref(self.total_rows(), larger(self.width, 1))
    }

    /// The rows with one more.
    pub open spec fn with_row(self, row: Seq<crate::formats::Cell>) -> StreamState {
        if is_blank(row) {
            StreamState {
                seen: self.seen + 1,
                pending_width: larger(self.pending_width, row.len() as int),
                ..self
            }
        } else {
            StreamState {
                seen: self.seen + 1,
                kept: self.seen + 1,
                width: larger(larger(self.width, self.pending_width), row.len() as int),
                pending_width: 0,
                ..self
            }
        }
    }

    /// The text of the next row, given its cells.
    pub open spec fn row_text(self, cells: Seq<char>) -> Seq<char> {
        crate::xlsx_update_rows::numbered_row(
            self.prefix,
            self.seen + self.header_rows() + 1,
            cells,
        )
    }
}

/// The namespace prefix of the rows of a worksheet.
pub open spec fn rows_prefix(xml: Seq<char>) -> Seq<char> {
    match crate::xml_patch::tag_from(xml, 0, "sheetdata"@) {
        Some(t) => t.prefix,
        None => Seq::empty(),
    }
}

/// What taking rows one by one starts with: the workbook, the state of the rows,
/// and the text of the header row.
pub struct Begun {
    pub book: XlsxPackage,
    pub stream: StreamState,
    pub header: Seq<char>,
}

impl XlsxPackage {
    /// The current bytes of the part with the shared strings, if there is one.
    pub open spec fn strings_part(self) -> Option<Seq<u8>> {
        if self.parts.has("xl/sharedStrings.xml"@) {
            self.parts.content("xl/sharedStrings.xml"@)
        } else {
            None
        }
    }

    /// The file that a part is staged in.
    pub open spec fn staged_file(self, path: Seq<char>) -> Option<Seq<char>> {
        if self.parts.staged.contains_key(path) {
            Some(self.parts.staged[path].path)
        } else {
            None
        }
    }

    /// The workbook ready to take rows into a sheet one by one.
    pub open spec fn begun(
        self,
        sheet: Seq<char>,
        headers: Option<Seq<Seq<char>>>,
        fallback: StyleFallback,
    ) -> Result<Begun, Fault> {
        match self.located(sheet) {
            Err(fault) => Err(fault),
            Ok(path) => if self.parts.has("xl/sharedStrings.xml"@) && self.parts.content(
                "xl/sharedStrings.xml"@,
            ) is None {
                Err(Fault::NoPart("xl/sharedStrings.xml"@))
            } else if self.parts.content(path) is None {
                Err(Fault::NoPart(path))
            } else {
                let xml = part_text(self.parts, path);
                match self.released(xml) {
                    Err(fault) => Err(fault),
                    Ok(ready) => match ready.looks(xml, fallback) {
                        Err(fault) => Err(fault),
                        Ok(looks) => Ok(self.begun_with(sheet, headers, xml, ready, looks)),
                    },
                }
            },
        }
    }

    pub open spec fn begun_with(
        self,
        sheet: Seq<char>,
        headers: Option<Seq<Seq<char>>>,
        xml: Seq<char>,
        ready: XlsxPackage,
        looks: Looks,
    ) -> Begun {
        let path = self.sheets.paths[sheet];
        let prefix = rows_prefix(xml);
        let stream = StreamState {
            sheet,
            path,
            xml,
            looks,
            prefix,
            strings_before: self.strings,
            strings_part: self.strings_part(),
            staged_before: self.staged_file(path),
            has_headers: headers is Some,
            width: header_width(headers),
            seen: 0,
            kept: 0,
            pending_width: 0,
        };
        match headers {
            None => Begun { book: ready, stream, header: Seq::empty() },
            Some(texts) => {
                let cells = crate::xlsx_update_rows::header_cells(
                    ready.strings,
                    texts,
                    texts.len(),
                    looks,
                );
                Begun {
                    book: XlsxPackage { strings: cells.strings, ..ready },
                    stream,
                    header: crate::xlsx_update_rows::numbered_row(prefix, 1, cells.xml),
                }
            },
        }
    }

    /// The workbook as it was before rows were taken one by one.
    pub open spec fn rolled_back(self, stream: StreamState, output: Seq<char>) -> XlsxPackage {
        let restored = match stream.strings_part {
            Some(bytes) => self.put_bytes("xl/sharedStrings.xml"@, bytes),
            None => self,
        };
        XlsxPackage {
            strings: stream.strings_before,
            parts: restored.parts.rolled_back(stream.path, stream.staged_before, output),
            obsolete: if restored.parts.staged.contains_key(stream.path)
                && restored.parts.staged[stream.path].path == output {
                restored.obsolete.push(output)
            } else {
                restored.obsolete
            },
            ..restored
        }
    }

    /// The workbook with the rows that were taken one by one in a file in place of
    /// the sheet's part.
    pub open spec fn completed(self, stream: StreamState, output: Seq<char>) -> Outcome {
        let staged = XlsxPackage {
            parts: self.parts.with_staged(stream.path, output),
            ..self
        };
        let done = staged.settled(stream.sheet, stream.dim(), stream.kept);
        match done.fault {
            Some(fault) => Outcome {
                book: done.book.rolled_back(stream, output),
                fault: Some(fault),
            },
            None => Outcome {
                book: match stream.staged_before {
                    Some(file) => if file != output {
                        XlsxPackage { obsolete: done.book.obsolete.push(file), ..done.book }
                    } else {
                        done.book
                    },
                    None => done.book,
                },
                fault: None,
            },
        }
    }
}

} // verus!
