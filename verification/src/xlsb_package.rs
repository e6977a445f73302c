//! What an XLSB workbook that is updated stands for, and what each operation
//! makes of it.

use vstd::prelude::*;
use crate::number::NumberTable;
use crate::xlsb_update_rows::BinStrings;
use crate::xlsx_package::{Fault, SheetPaths, StyleFallback};
use crate::xlsx_update_rows::Looks;
use crate::zip_store::Parts;

verus! {

/// The message for a sheet record that ends too early.
pub open spec fn sheet_truncated() -> Seq<char> {
    "XlsbUpdater: workbook sheet record is truncated"@
}

/// The text of a number of UTF-16 units, nothing where it does not lie in the
/// buffer.
pub open spec fn units_text(buf: Seq<u8>, start: int, count: int) -> Seq<char> {
    match crate::biff12::utf16_at(buf, start, count) {
        Ok(text) => text,
        Err(_) => Seq::empty(),
    }
}

/// The relationship and the name of the sheet that a record (0x9c) declares.
pub open spec fn declared_sheet(buf: Seq<u8>, start: int) -> Result<
    (Seq<char>, Seq<char>),
    Seq<char>,
> {
    let id_at = start + 12;
    if id_at > buf.len() {
        Err(sheet_truncated())
    } else {
        let id_len = crate::biff12::le_u32_at(buf, id_at - 4);
        let name_at = id_at + 2 * id_len + 4;
        if name_at > buf.len() {
            Err(sheet_truncated())
        } else {
            let name_len = crate::biff12::le_u32_at(buf, name_at - 4);
            Ok((units_text(buf, id_at, id_len), units_text(buf, name_at, name_len)))
        }
    }
}

/// The sheets that the workbook part declares from `pos` on, added to those
/// already met.
pub open spec fn sheets_from(
    buf: Seq<u8>,
    pos: int,
    rels: Map<Seq<char>, Seq<char>>,
    known: SheetPaths,
) -> Result<SheetPaths, Seq<char>>
    decreases buf.len() - pos,
    when 0 <= pos <= buf.len() <= usize::MAX
{
    proof {
        crate::biff12::lemma_record_bounds(buf, pos);
    }
    match crate::biff12::record_at(buf, pos) {
        Err(message) => Err(message),
        Ok(None) => Ok(known),
        Ok(Some(rec)) => if rec.id == 0x9c && rec.len >= 8 {
            match declared_sheet(buf, rec.data_start as int) {
                Err(message) => Err(message),
                Ok((id, name)) => sheets_from(
                    buf,
                    rec.data_end as int,
                    rels,
                    known.with_sheet(
                        name,
                        crate::xlsx_package::sheet_part_path(
                            crate::xlsx_package::target_of(rels, id),
                        ),
                    ),
                ),
            }
        } else {
            sheets_from(buf, rec.data_end as int, rels, known)
        },
    }
}

pub open spec fn is_cache(name: Seq<char>) -> bool {
    crate::xlsx_patch::is_numbered(name, "xl/pivotCache/pivotCacheDefinition"@, ".bin"@)
}

/// The pivot caches among the first `n` names.
pub open spec fn caches_of(names: Seq<Seq<char>>, n: nat) -> Seq<Seq<char>>
    decreases n,
{
    if n == 0 {
        Seq::empty()
    } else if is_cache(names[n - 1]) {
        caches_of(names, (n - 1) as nat).push(names[n - 1])
    } else {
        caches_of(names, (n - 1) as nat)
    }
}

/// A workbook that is updated: its parts, its sheets, its pivot caches, its shared
/// strings, its date system, and the files that are no longer needed.
#[verifier::ext_equal]
pub struct XlsbPackage {
    pub parts: Parts,
    pub sheets: SheetPaths,
    pub caches: Seq<Seq<char>>,
    pub strings: BinStrings,
    pub uses_1904: bool,
    pub obsolete: Seq<Seq<char>>,
}

/// What an operation leads to: the workbook behind it, and what kept it from
/// succeeding.
pub struct BinOutcome {
    pub book: XlsbPackage,
    pub fault: Option<Fault>,
}

/// The workbook that an archive holds.
pub open spec fn opened(parts: Parts) -> Result<XlsbPackage, Fault> {
    let rels = crate::relationships::relationships(
        crate::xlsx_package::part_text(parts, "xl/_rels/workbook.bin.rels"@),
    );
    let names = parts.names();
    if !parts.has("xl/workbook.bin"@) {
        Err(
            Fault::Malformed(
                "XlsbUpdater: not an XLSB workbook (xl/workbook.bin missing). Convert the file to XLSB first."@,
            ),
        )
    } else {
        match parts.content("xl/workbook.bin"@) {
            None => Err(Fault::NoPart("xl/workbook.bin"@)),
            Some(workbook) => match crate::biff12::date_system_scan(workbook, 0) {
                Err(message) => Err(Fault::Malformed(message)),
                Ok(uses_1904) => match sheets_from(
                    workbook,
                    0,
                    rels,
                    SheetPaths { order: Seq::empty(), paths: Map::empty() },
                ) {
                    Err(message) => Err(Fault::Malformed(message)),
                    Ok(sheets) => Ok(
                        XlsbPackage {
                            parts,
                            sheets,
                            caches: caches_of(names, names.len()),
                            strings: crate::xlsb_update_rows::no_strings(),
                            uses_1904,
                            obsolete: Seq::empty(),
                        },
                    ),
                },
            },
        }
    }
}

/// The message for a sheet that is not there.
pub open spec fn no_sheet(sheet: Seq<char>) -> Seq<char> {
    "XlsbUpdater: sheet \""@ + sheet + "\" not found in the workbook."@
}

/// The message for a sheet whose part is not there.
pub open spec fn no_sheet_part(sheet: Seq<char>) -> Seq<char> {
    "XlsbUpdater: worksheet part missing for sheet \""@ + sheet + "\"."@
}

/// The shared strings that a part holds.
pub open spec fn strings_in(bytes: Seq<u8>) -> Result<BinStrings, Fault> {
    match crate::biff12::shared_strings_of(bytes) {
        Err(message) => Err(Fault::Malformed(message)),
        Ok(table) => Ok(
            BinStrings {
                part: Some(bytes),
                values: table.values,
                total: table.total as u32,
                unique: table.unique as u32,
                end: table.end_sst_offset,
                added: 0,
                dirty: false,
            },
        ),
    }
}

/// The number of the last of so many rows or columns, zero where there is none.
pub open spec fn last_of(n: int) -> u32 {
    crate::xlsb_cells::low32(
        if n > 0 {
            n - 1
        } else {
            0
        },
    )
}

impl XlsbPackage {
    /// The workbook with a part replaced. The file of a staged part that is
    /// replaced is no longer needed.
    pub open spec fn put(self, name: Seq<char>, data: Seq<u8>) -> XlsbPackage {
        XlsbPackage {
            parts: self.parts.with_file(name, data),
            obsolete: if self.parts.staged.contains_key(name) {
                self.obsolete.push(self.parts.staged[name].path)
            } else {
                self.obsolete
            },
            ..self
        }
    }

    /// The part of a sheet.
    pub open spec fn located(self, sheet: Seq<char>) -> Result<Seq<char>, Fault> {
        if !self.sheets.paths.contains_key(sheet) {
            Err(Fault::NoSheet(no_sheet(sheet)))
        } else if !self.parts.has(self.sheets.paths[sheet]) {
            Err(Fault::Malformed(no_sheet_part(sheet)))
        } else {
            Ok(self.sheets.paths[sheet])
        }
    }

    /// The bytes of a sheet.
    pub open spec fn sheet_bytes(self, sheet: Seq<char>) -> Result<Seq<u8>, Fault> {
        match self.located(sheet) {
            Err(fault) => Err(fault),
            Ok(path) => match self.parts.content(path) {
                Some(bytes) => Ok(bytes),
                None => Err(Fault::NoPart(path)),
            },
        }
    }

    /// The shared strings, read from their part where that has not been done yet.
    pub open spec fn loaded_strings(self) -> Result<BinStrings, Fault> {
        if self.strings.values.len() > 0 || self.strings.part is Some || !self.parts.has(
            "xl/sharedStrings.bin"@,
        ) {
            Ok(self.strings)
        } else {
            match self.parts.content("xl/sharedStrings.bin"@) {
                None => Err(Fault::NoPart("xl/sharedStrings.bin"@)),
                Some(bytes) => strings_in(bytes),
            }
        }
    }

    /// The workbook ready to take new rows into a sheet: with its shared strings
    /// read, and without the cells of the sheet that pointed at them.
    pub open spec fn released(self, bytes: Seq<u8>) -> Result<XlsbPackage, Fault> {
        match self.loaded_strings() {
            Err(fault) => Err(fault),
            Ok(strings) => if strings.part is None {
                Ok(XlsbPackage { strings, ..self })
            } else {
                match crate::xlsb_patch::string_refs(bytes, 0, 0) {
                    Err(message) => Err(Fault::Malformed(message)),
                    Ok(refs) => Ok(XlsbPackage { strings: strings.released(refs), ..self }),
                }
            },
        }
    }

    /// The style for dates that the workbook offers.
    pub open spec fn date_style(self) -> Result<Option<int>, Fault> {
        if !self.parts.has("xl/styles.bin"@) {
            Ok(None)
        } else {
            match self.parts.content("xl/styles.bin"@) {
                None => Err(Fault::NoPart("xl/styles.bin"@)),
                Some(bytes) => match crate::xlsb_patch::date_style(bytes) {
                    Ok(style) => Ok(style),
                    Err(message) => Err(Fault::Malformed(message)),
                },
            }
        }
    }

    /// The looks that new cells of a sheet take over.
    pub open spec fn looks(self, bytes: Seq<u8>, fallback: StyleFallback) -> Result<
        Looks,
        Fault,
    > {
        if fallback == StyleFallback::General {
            Ok(Looks { cells: Seq::empty(), date: None })
        } else {
            match crate::xlsb_patch::styled_cells(bytes, 0, false, Seq::empty()) {
                Err(message) => Err(Fault::Malformed(message)),
                Ok(cells) => match self.date_style() {
                    Ok(date) => Ok(Looks { cells, date }),
                    Err(fault) => Err(fault),
                },
            }
        }
    }

    /// The workbook with the part of the shared strings written anew where it has
    /// to be.
    pub open spec fn committed(self) -> BinOutcome {
        if self.strings.part is None || !self.strings.dirty {
            BinOutcome { book: self, fault: None }
        } else {
            let part = self.strings.part->0;
            let n = self.strings.values.len() as int;
            let items = crate::xlsb_patch::string_items(
                self.strings.values,
                n - self.strings.added,
                n,
            );
            let end = self.strings.end;
            if end + items.len() > usize::MAX {
                BinOutcome {
                    book: self,
                    fault: Some(
                        Fault::Malformed(
                            "XlsbUpdater: shared-string insertion offset overflows"@,
                        ),
                    ),
                }
            } else if part.len() + items.len() > usize::MAX {
                BinOutcome {
                    book: self,
                    fault: Some(Fault::Malformed("XlsbUpdater: shared-string size overflows"@)),
                }
            } else {
                match crate::xlsb_patch::with_counts(
                    crate::xlsb_patch::spliced_bytes(part, end, end, items),
                    0,
                    self.strings.total,
                    self.strings.unique,
                ) {
                    Err(message) => BinOutcome {
                        book: self,
                        fault: Some(Fault::Malformed(message)),
                    },
                    Ok(bytes) => BinOutcome {
                        book: XlsbPackage {
                            strings: BinStrings {
                                part: Some(bytes),
                                end: end + items.len(),
                                added: 0,
                                dirty: false,
                                ..self.strings
                            },
                            ..self.put("xl/sharedStrings.bin"@, bytes)
                        },
                        fault: None,
                    },
                }
            }
        }
    }

    /// The workbook with the first `n` pivot caches in step with new rows of a
    /// sheet.
    pub open spec fn with_caches(
        self,
        sheet: Seq<char>,
        last_row: u32,
        last_col: u32,
        n: nat,
    ) -> BinOutcome
        decreases n,
    {
        if n == 0 {
            BinOutcome { book: self, fault: None }
        } else {
            let before = self.with_caches(sheet, last_row, last_col, (n - 1) as nat);
            let path = self.caches[n - 1];
            if before.fault is Some {
                before
            } else {
                match before.book.parts.content(path) {
                    None => before,
                    Some(bytes) => match crate::xlsb_patch::updated_cache(
                        bytes,
                        sheet,
                        last_row,
                        last_col,
                    ) {
                        Err(message) => BinOutcome {
                            book: before.book,
                            fault: Some(Fault::Malformed(message)),
                        },
                        Ok(None) => before,
                        Ok(Some(new)) => BinOutcome {
                            book: before.book.put(path, new),
                            fault: None,
                        },
                    },
                }
            }
        }
    }

    /// The workbook after the rows of a sheet have been replaced: its shared
    /// strings written, its pivot caches in step.
    pub open spec fn settled(self, sheet: Seq<char>, last_row: u32, last_col: u32) -> BinOutcome {
        let written = self.committed();
        if written.fault is Some {
            written
        } else {
            written.book.with_caches(sheet, last_row, last_col, written.book.caches.len())
        }
    }

    /// The workbook, ready to take new rows into a sheet, with the rows in place.
    pub open spec fn refilled(
        self,
        sheet: Seq<char>,
        bytes: Seq<u8>,
        rows: Seq<Seq<crate::formats::Cell>>,
        headers: Option<Seq<Seq<char>>>,
        looks: Looks,
        numbers: NumberTable,
    ) -> BinOutcome {
        let total = rows.len() + crate::xlsx_package::header_rows(headers);
        let columns = crate::xlsx_package::larger(
            crate::xlsx_package::widest(rows),
            crate::xlsx_package::header_width(headers),
        );
        let last_col = if columns > 0 {
            columns - 1
        } else {
            0
        };
        let data = crate::xlsb_update_rows::sheet_rows(
            self.strings,
            headers,
            rows,
            last_col,
            looks,
            numbers,
        );
        let filled = XlsbPackage { strings: data.strings, ..self };
        match crate::xlsb_patch::patched_sheet(
            bytes,
            data.bytes,
            last_of(total),
            last_of(columns),
        ) {
            Err(message) => BinOutcome { book: filled, fault: Some(Fault::Malformed(message)) },
            Ok(new) => filled.put(self.sheets.paths[sheet], new).settled(
                sheet,
                last_of(total),
                last_of(columns),
            ),
        }
    }

    /// The workbook after the rows of a sheet have been replaced at once.
    pub open spec fn replaced(
        self,
        sheet: Seq<char>,
        rows: Seq<Seq<crate::formats::Cell>>,
        headers: Option<Seq<Seq<char>>>,
        fallback: StyleFallback,
        numbers: NumberTable,
    ) -> BinOutcome {
        match self.sheet_bytes(sheet) {
            Err(fault) => BinOutcome { book: self, fault: Some(fault) },
            Ok(bytes) => match self.released(bytes) {
                Err(fault) => BinOutcome { book: self, fault: Some(fault) },
                Ok(ready) => match ready.looks(bytes, fallback) {
                    Err(fault) => BinOutcome { book: ready, fault: Some(fault) },
                    Ok(looks) => ready.refilled(
                        sheet,
                        bytes,
                        crate::xlsx_package::kept_rows(rows),
                        headers,
                        looks,
                        numbers,
                    ),
                },
            },
        }
    }
}

/// Rows that are handed over one by one: the sheet they go into, its part and its
/// bytes, the looks of the new cells, what to go back to, and how far the rows
/// have come. A row that is empty counts only once one that is not empty follows.
pub struct BinStreamState {
    pub sheet: Seq<char>,
    pub path: Seq<char>,
    pub bytes: Seq<u8>,
    pub looks: Looks,
    pub strings_before: BinStrings,
    pub strings_part: Option<Seq<u8>>,
    pub staged_before: Option<Seq<char>>,
    pub has_headers: bool,
    pub width: int,
    pub seen: int,
    pub kept: int,
    pub pending_width: int,
}

impl BinStreamState {
    pub open spec fn header_rows(self) -> int {
        if self.has_headers {
            1
        } else {
            0
        }
    }

    /// The number of the last row that stays.
    pub open spec fn last_row(self) -> u32 {
        last_of(self.kept + self.header_rows())
    }

    /// The number of the last column.
    pub open spec fn last_col(self) -> u32 {
        last_of(self.width)
    }

    /// The rows with one more.
    pub open spec fn with_row(self, row: Seq<crate::formats::Cell>) -> BinStreamState {
        if crate::xlsx_package::is_blank(row) {
            BinStreamState {
                seen: self.seen + 1,
                pending_width: crate::xlsx_package::larger(
                    self.pending_width,
                    row.len() as int,
                ),
                ..self
            }
        } else {
            BinStreamState {
                seen: self.seen + 1,
                kept: self.seen + 1,
                width: crate::xlsx_package::larger(
                    crate::xlsx_package::larger(self.width, self.pending_width),
                    row.len() as int,
                ),
                pending_width: 0,
                ..self
            }
        }
    }

    /// The bytes of the next row, given its cells. The number of its last column
    /// is left open.
    pub open spec fn row(self, cells: Seq<u8>) -> Seq<u8> {
        crate::xlsb_update_rows::row_bytes(self.seen + self.header_rows(), 0, cells)
    }
}

/// What taking rows one by one starts with: the workbook, the state of the rows,
/// and the bytes of the header row.
pub struct BinBegun {
    pub book: XlsbPackage,
    pub stream: BinStreamState,
    pub header: Seq<u8>,
}

impl XlsbPackage {
    /// The current bytes of the part with the shared strings, if there is one.
    pub open spec fn strings_part(self) -> Option<Seq<u8>> {
        if self.parts.has("xl/sharedStrings.bin"@) {
            self.parts.content("xl/sharedStrings.bin"@)
        } else {
            None
        }
    }

    /// The file that a part is staged in.
    pub open spec fn staged_file(self, path: Seq<char>) -> Option<Seq<char>> {
        if self.parts.staged.contains_key(path) {
            Some(self.parts.staged[path].path)
        } else {
            None
        }
    }

    /// The workbook ready to take rows into a sheet one by one.
    pub open spec fn begun(
        self,
        sheet: Seq<char>,
        headers: Option<Seq<Seq<char>>>,
        fallback: StyleFallback,
    ) -> Result<BinBegun, Fault> {
        match self.located(sheet) {
            Err(fault) => Err(fault),
            Ok(path) => if self.parts.has("xl/sharedStrings.bin"@) && self.parts.content(
                "xl/sharedStrings.bin"@,
            ) is None {
                Err(Fault::NoPart("xl/sharedStrings.bin"@))
            } else {
                match self.parts.content(path) {
                    None => Err(Fault::NoPart(path)),
                    Some(bytes) => match self.released(bytes) {
                        Err(fault) => Err(fault),
                        Ok(ready) => match ready.looks(bytes, fallback) {
                            Err(fault) => Err(fault),
                            Ok(looks) => Ok(self.begun_with(sheet, headers, bytes, ready, looks)),
                        },
                    },
                }
            },
        }
    }

    pub open spec fn begun_with(
        self,
        sheet: Seq<char>,
        headers: Option<Seq<Seq<char>>>,
        bytes: Seq<u8>,
        ready: XlsbPackage,
        looks: Looks,
    ) -> BinBegun {
        let path = self.sheets.paths[sheet];
        let stream = BinStreamState {
            sheet,
            path,
            bytes,
            looks,
            strings_before: self.strings,
            strings_part: self.strings_part(),
            staged_before: self.staged_file(path),
            has_headers: headers is Some,
            width: crate::xlsx_package::header_width(headers),
            seen: 0,
            kept: 0,
            pending_width: 0,
        };
        match headers {
            None => BinBegun { book: ready, stream, header: Seq::empty() },
            Some(texts) => {
                let cells = crate::xlsb_update_rows::header_cells(
                    ready.strings,
                    texts,
                    texts.len(),
                    looks,
                );
                BinBegun {
                    book: XlsbPackage { strings: cells.strings, ..ready },
                    stream,
                    header: crate::xlsb_update_rows::row_bytes(0, 0, cells.bytes),
                }
            },
        }
    }

    /// The workbook as it was before rows were taken one by one.
    pub open spec fn rolled_back(self, stream: BinStreamState, output: Seq<char>) -> XlsbPackage {
        let restored = match stream.strings_part {
            Some(bytes) => self.put("xl/sharedStrings.bin"@, bytes),
            None => self,
        };
        XlsbPackage {
            strings: stream.strings_before,
            parts: restored.parts.rolled_back(stream.path, stream.staged_before, output),
            obsolete: if restored.parts.staged.contains_key(stream.path)
                && restored.parts.staged[stream.path].path == output {
                restored.obsolete.push(output)
            } else {
                restored.obsolete
            },
            ..restored
        }
    }

    /// The workbook with the rows that were taken one by one in a file in place of
    /// the sheet's part.
    pub open spec fn completed(self, stream: BinStreamState, output: Seq<char>) -> BinOutcome {
        let staged = XlsbPackage {
            parts: self.parts.with_staged(stream.path, output),
            ..self
        };
        let done = staged.settled(stream.sheet, stream.last_row(), stream.last_col());
        match done.fault {
            Some(fault) => BinOutcome {
                book: done.book.rolled_back(stream, output),
                fault: Some(fault),
            },
            None => BinOutcome {
                book: match stream.staged_before {
                    Some(file) => if file != output {
                        XlsbPackage { obsolete: done.book.obsolete.push(file), ..done.book }
                    } else {
                        done.book
                    },
                    None => done.book,
                },
                fault: None,
            },
        }
    }
}

} // verus!
