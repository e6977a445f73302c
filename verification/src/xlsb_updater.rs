//! Updating the rows of a worksheet inside an existing XLSB workbook.
//!
//! Everything outside the rows of the sheet stays, byte for byte.

use vstd::prelude::*;
use crate::biff12::{
    parse_shared_strings_bin, read_record, read_u32_le, read_utf16, uses_1904_date_system_bin,
    Biff12Record,
};
use crate::error::{invalid, SpreadsheetError, SpreadsheetResult};
use crate::formats::CellValue;
use crate::name_map::NameMap;
use crate::number::NumberTable;
use crate::relationships::parse_relationships;
use crate::string_table::StringTable;
use crate::xlsb_cells::{push_row_header, to_low32};
use crate::xlsb_patch::{
    collect_styles, find_date_xf, find_rows_region, patch_sheet, plan_overwrites,
    push_string_item, set_counts, shared_string_ref_count, splice_bytes, update_pivot_cache,
    Overwrite,
};
use crate::xlsb_update_rows::{build_rows, push_header_cells, push_row, BinSharedStrings};
use crate::xlsx_package::{ReplaceSheetDataOptions, StyleFallback};
use crate::xlsx_patch::is_numbered_part;
use crate::xlsx_styles::ExistingStyles;
use crate::xlsx_update_rows::{copy_texts, CellLooks};
use crate::xlsx_updater::{
    blank_row, part_path_of, quoted, text_of_part, widest_row, without_trailing_rows, Sheets,
};
use crate::zip_store::ZipStore;

verus! {

/// An XLSB workbook that is updated.
pub struct XlsbUpdater {
    zip: ZipStore,
    sheet_name_to_path: NameMap<String>,
    sheet_order: Vec<String>,
    pivot_cache_def_paths: Vec<String>,
    strings: BinSharedStrings,
    uses_1904_date_system: bool,
    obsolete: Vec<String>,
}

impl View for XlsbUpdater {
    type V = crate::xlsb_package::XlsbPackage;

    closed spec fn view(&self) -> crate::xlsb_package::XlsbPackage {
        crate::xlsb_package::XlsbPackage {
            parts: self.zip@,
            sheets: crate::xlsx_package::SheetPaths {
                order: crate::biff12::texts(self.sheet_order@),
                paths: crate::xlsx_updater::path_map(self.sheet_name_to_path@),
            },
            caches: crate::biff12::texts(self.pivot_cache_def_paths@),
            strings: self.strings@,
            uses_1904: self.uses_1904_date_system,
            obsolete: crate::biff12::texts(self.obsolete@),
        }
    }
}

/// The relationship and the name of the sheet that a record declares.
fn read_declared_sheet(buf: &[u8], start: usize) -> (r: SpreadsheetResult<(String, String)>)
    requires
        start <= buf.len(),
    ensures
        match r {
            Ok((id, name)) => crate::xlsb_package::declared_sheet(buf@, start as int) == Ok::<
                (Seq<char>, Seq<char>),
                Seq<char>,
            >((id@, name@)),
            Err(e) => crate::xlsb_package::declared_sheet(buf@, start as int) matches Err(message)
                && e.says(message),
        },
{
    if buf.len() - start < 12 {
        return Err(invalid("XlsbUpdater: workbook sheet record is truncated"));
    }
    let id_at: usize = start + 12;
    let id_len: usize = read_u32_le(buf, start + 8) as usize;
    let name_at: u128 = id_at as u128 + 2 * (id_len as u128) + 4;
    if name_at > buf.len() as u128 {
        return Err(invalid("XlsbUpdater: workbook sheet record is truncated"));
    }
    let name_at: usize = name_at as usize;
    let name_len: usize = read_u32_le(buf, name_at - 4) as usize;
    Ok((read_utf16(buf, id_at, id_len), read_utf16(buf, name_at, name_len)))
}

fn read_sheets(buf: &[u8], rels: &crate::relationships::RelationshipMap) -> (r: SpreadsheetResult<
    Sheets,
>)
    ensures
        ({
            let model = crate::xlsb_package::sheets_from(
                buf@,
                0,
                rels@,
                crate::xlsx_package::SheetPaths { order: Seq::empty(), paths: Map::empty() },
            );
            match r {
                Ok(sheets) => sheets.wf() && model == Ok::<
                    crate::xlsx_package::SheetPaths,
                    Seq<char>,
                >(sheets@),
                Err(e) => model matches Err(message) && e.says(message),
            }
        }),
{
    let mut sheets = Sheets::new();
    let ghost none = sheets@;
    let mut rec = Biff12Record::default();
    let mut pos: usize = 0;
    loop
        invariant
            pos <= buf.len(),
            sheets.wf(),
            none == (crate::xlsx_package::SheetPaths { order: Seq::empty(), paths: Map::empty() }),
            crate::xlsb_package::sheets_from(buf@, 0, rels@, none)
                == crate::xlsb_package::sheets_from(buf@, pos as int, rels@, sheets@),
        decreases buf.len() - pos,
    {
        proof {
            crate::biff12::lemma_record_bounds(buf@, pos as int);
        }
        match read_record(buf, pos, &mut rec) {
            Err(e) => return Err(e),
            Ok(false) => return Ok(sheets),
            Ok(true) => {},
        }
        pos = rec.data_end;
        if rec.id == 0x009c && rec.len >= 8 {
            let (id, name) = match read_declared_sheet(buf, rec.data_start) {
                Ok(found) => found,
                Err(e) => return Err(e),
            };
            let path = match rels.get(id.as_str()) {
                Some(target) => part_path_of(target),
                None => {
                    assert("".view() =~= Seq::<char>::empty()) by {
                        reveal_strlit("");
                    }
                    part_path_of("")
                },
            };
            sheets.add_sheet(name.as_str(), path);
        }
    }
}

fn read_caches(zip: &ZipStore) -> (paths: Vec<String>)
    requires
        zip.wf(),
    ensures
        crate::biff12::texts(paths@) == crate::xlsb_package::caches_of(
            zip@.names(),
            zip@.names().len(),
        ),
{
    let names = zip.entry_names();
    let ghost all = zip@.names();
    let mut paths: Vec<String> = Vec::new();
    let mut i: usize = 0;
    assert(crate::biff12::texts(paths@) =~= Seq::<Seq<char>>::empty());
    while i < names.len()
        invariant
            crate::biff12::texts(names@) == all,
            i <= names.len(),
            crate::biff12::texts(paths@) == crate::xlsb_package::caches_of(all, i as nat),
        decreases names.len() - i,
    {
        let name = names[i].as_str();
        assert(all[i as int] == name@);
        if is_numbered_part(name, "xl/pivotCache/pivotCacheDefinition", ".bin") {
            let ghost earlier = paths@;
            paths.push(name.to_owned());
            assert(crate::biff12::texts(paths@) =~= crate::biff12::texts(earlier).push(name@));
        }
        i += 1;
    }
    paths
}

/// The shared strings that a part holds.
fn read_strings(bytes: &[u8]) -> (r: SpreadsheetResult<BinSharedStrings>)
    ensures
        match r {
            Ok(strings) => strings.wf() && crate::xlsb_package::strings_in(bytes@) == Ok::<
                crate::xlsb_update_rows::BinStrings,
                crate::xlsx_package::Fault,
            >(strings@),
            Err(e) => {
                &&& crate::xlsb_package::strings_in(bytes@) matches Err(
                    crate::xlsx_package::Fault::Malformed(message),
                )
                &&& e.says(message)
            },
        },
{
    let table = match parse_shared_strings_bin(bytes) {
        Ok(table) => table,
        Err(e) => return Err(e),
    };
    let ghost found = crate::biff12::texts(table.values@);
    let mut values = StringTable::new();
    let mut i: usize = 0;
    while i < table.values.len()
        invariant
            i <= table.values.len(),
            found == crate::biff12::texts(table.values@),
            values.wf(),
            values@ == found.take(i as int),
        decreases table.values.len() - i,
    {
        values.push(table.values[i].as_str());
        assert(values@ =~= found.take(i as int + 1));
        i += 1;
    }
    assert(found.take(i as int) =~= found);
    let len: usize = bytes.len();
    proof {
        assert(len == bytes@.len());
        lemma_insertion_point(
            bytes@,
            0,
            crate::biff12::SharedStrings {
                values: Seq::empty(),
                total: 0,
                unique: 0,
                end_sst_offset: bytes@.len() as int,
            },
        );
    }
    let strings = BinSharedStrings {
        part: Some(vstd::slice::slice_to_vec(bytes)),
        values,
        total: table.total,
        unique: table.unique,
        end: table.end_sst_offset,
        added: 0,
        dirty: false,
    };
    proof {
        let model = crate::xlsb_package::strings_in(bytes@);
        assert(model is Ok);
        assert(strings@ =~= model->Ok_0);
    }
    Ok(strings)
}

/// New shared strings go into their part.
proof fn lemma_insertion_point(buf: Seq<u8>, pos: int, table: crate::biff12::SharedStrings)
    requires
        0 <= pos <= buf.len() <= usize::MAX,
        0 <= table.end_sst_offset <= buf.len(),
    ensures
        crate::biff12::sst_scan(buf, pos, table) matches Ok(t) ==> 0 <= t.end_sst_offset
            <= buf.len(),
    decreases buf.len() - pos,
{
    crate::biff12::lemma_record_bounds(buf, pos);
    if let Ok(Some(rec)) = crate::biff12::record_at(buf, pos) {
        if let Ok(next) = crate::biff12::sst_step(buf, rec, table) {
            lemma_insertion_point(buf, rec.data_end as int, next);
        }
    }
}

/// Rows that are handed over one by one.
pub struct BinRowStream {
    sheet_name: String,
    sheet_path: String,
    sheet_bytes: Vec<u8>,
    looks: CellLooks,
    strings_before: BinSharedStrings,
    strings_part: Option<Vec<u8>>,
    staged_before: Option<String>,
    has_headers: bool,
    header: Vec<u8>,
    width: usize,
    seen: u32,
    kept: u32,
    pending_width: usize,
}

impl View for BinRowStream {
    type V = crate::xlsb_package::BinStreamState;

    closed spec fn view(&self) -> crate::xlsb_package::BinStreamState {
        crate::xlsb_package::BinStreamState {
            sheet: self.sheet_name@,
            path: self.sheet_path@,
            bytes: self.sheet_bytes@,
            looks: self.looks@,
            strings_before: self.strings_before@,
            strings_part: match self.strings_part {
                Some(bytes) => Some(bytes@),
                None => None,
            },
            staged_before: match self.staged_before {
                Some(path) => Some(path@),
                None => None,
            },
            has_headers: self.has_headers,
            width: self.width as int,
            seen: self.seen as int,
            kept: self.kept as int,
            pending_width: self.pending_width as int,
        }
    }
}

/// How rows that stand in a file go into a sheet: behind the first `rows_start`
/// bytes of the sheet and in front of those from `rows_end` on, with the number of
/// the last column written into each row, and with further numbers written over
/// the result.
pub struct BinRowPlan {
    pub rows_start: usize,
    pub rows_end: usize,
    pub last_col: u32,
    pub overwrites: Vec<Overwrite>,
}

impl BinRowStream {
    pub closed spec fn wf(self) -> bool {
        self.looks.styles.wf() && self.strings_before.wf() && self.kept <= self.seen
    }

    pub closed spec fn header_bytes(self) -> Seq<u8> {
        self.header@
    }

    /// The bytes of the header row, nothing where there are no headers.
    pub fn header_row(&self) -> (bytes: &[u8])
        ensures
            bytes@ == self.header_bytes(),
    {
        self.header.as_slice()
    }

    /// The bytes of the sheet as it was.
    pub fn old_sheet(&self) -> (bytes: &[u8])
        ensures
            bytes@ == self@.bytes,
    {
        self.sheet_bytes.as_slice()
    }

    /// Whether another row can be counted.
    pub fn has_room(&self) -> (b: bool)
        ensures
            b == (self@.seen < u32::MAX - 1),
    {
        self.seen < u32::MAX - 1
    }

    fn last_row(&self) -> (n: u32)
        ensures
            n == self@.last_row(),
    {
        let total: u64 = if self.has_headers {
            self.kept as u64 + 1
        } else {
            self.kept as u64
        };
        to_low32(
            if total > 0 {
                total - 1
            } else {
                0
            },
        )
    }

    fn last_col(&self) -> (n: u32)
        ensures
            n == self@.last_col(),
    {
        to_low32(
            if self.width > 0 {
                (self.width - 1) as u64
            } else {
                0
            },
        )
    }

    /// Plans how rows of the given length in all, which stand in a file, go into
    /// the sheet.
    pub fn plan(&self, rows_len: u64) -> (r: SpreadsheetResult<BinRowPlan>)
        requires
            self@.bytes.len() + rows_len <= u64::MAX,
        ensures
            match r {
                Ok(plan) => {
                    &&& crate::xlsb_patch::rows_region(self@.bytes) matches Ok(region)
                    &&& plan.rows_start == region.start
                    &&& plan.rows_end == region.end
                    &&& plan.rows_start <= plan.rows_end <= self@.bytes.len()
                    &&& plan.last_col == self@.last_col()
                    &&& crate::xlsb_patch::sheet_overwrites(
                        self@.bytes,
                        region,
                        rows_len as int,
                        self@.last_row(),
                        self@.last_col(),
                    ) == Ok::<Seq<crate::xlsb_patch::Overwritten>, Seq<char>>(
                        crate::xlsb_patch::overwrites(plan.overwrites@),
                    )
                },
                Err(e) => match crate::xlsb_patch::rows_region(self@.bytes) {
                    Err(message) => e.says(message),
                    Ok(region) => crate::xlsb_patch::sheet_overwrites(
                        self@.bytes,
                        region,
                        rows_len as int,
                        self@.last_row(),
                        self@.last_col(),
                    ) matches Err(message) && e.says(message),
                },
            },
    {
        let region = match find_rows_region(self.sheet_bytes.as_slice()) {
            Ok(region) => region,
            Err(e) => return Err(e),
        };
        let last_col: u32 = self.last_col();
        match plan_overwrites(
            self.sheet_bytes.as_slice(),
            &region,
            rows_len,
            self.last_row(),
            last_col,
        ) {
            Ok(overwrites) => Ok(
                BinRowPlan {
                    rows_start: region.rows_start,
                    rows_end: region.rows_end,
                    last_col,
                    overwrites,
                },
            ),
            Err(e) => Err(e),
        }
    }
}

/// A row as bytes, and whether everything handed over up to it stays.
pub struct BinRowFragment {
    pub bytes: Vec<u8>,
    pub stays: bool,
}

impl XlsbUpdater {
    pub closed spec fn wf(self) -> bool {
        self.zip.wf() && self.sheet_name_to_path.wf() && self.strings.wf()
    }

    /// Reads the structure of a workbook from the parts of its archive.
    pub fn open(zip: ZipStore) -> (r: SpreadsheetResult<Self>)
        requires
            zip.wf(),
        ensures
            match r {
                Ok(updater) => updater.wf() && crate::xlsb_package::opened(zip@) == Ok::<
                    crate::xlsb_package::XlsbPackage,
                    crate::xlsx_package::Fault,
                >(updater@),
                Err(e) => crate::xlsb_package::opened(zip@) matches Err(fault)
                    && fault.is_reported(e, zip@),
            },
    {
        if !zip.has_entry("xl/workbook.bin") {
            return Err(
                invalid(
                    "XlsbUpdater: not an XLSB workbook (xl/workbook.bin missing). Convert the file to XLSB first.",
                ),
            );
        }
        let rels_xml = text_of_part(&zip, "xl/_rels/workbook.bin.rels");
        let rels = parse_relationships(rels_xml.as_str());
        let workbook: Vec<u8> = match zip.entry_data("xl/workbook.bin") {
            Ok(bytes) => vstd::slice::slice_to_vec(bytes),
            Err(e) => return Err(e),
        };
        let dates = match uses_1904_date_system_bin(workbook.as_slice()) {
            Ok(dates) => dates,
            Err(e) => return Err(e),
        };
        let sheets = match read_sheets(workbook.as_slice(), &rels) {
            Ok(sheets) => sheets,
            Err(e) => return Err(e),
        };
        let caches = read_caches(&zip);
        let updater = XlsbUpdater {
            zip,
            sheet_name_to_path: sheets.paths,
            sheet_order: sheets.order,
            pivot_cache_def_paths: caches,
            strings: BinSharedStrings::new(),
            uses_1904_date_system: dates,
            obsolete: Vec::new(),
        };
        proof {
            let model = crate::xlsb_package::opened(zip@);
            assert(model is Ok);
            assert(updater@ =~= model->Ok_0);
        }
        Ok(updater)
    }

    /// Worksheet names in workbook order.
    pub fn sheet_names(&self) -> (names: Vec<String>)
        ensures
            crate::biff12::texts(names@) == self@.sheets.order,
    {
        copy_texts(&self.sheet_order)
    }

    /// Whether the workbook counts its dates from 1904 on.
    pub fn counts_from_1904(&self) -> (b: bool)
        ensures
            b == self@.uses_1904,
    {
        self.uses_1904_date_system
    }

    /// The parts of the workbook.
    pub fn store(&self) -> (zip: &ZipStore)
        requires
            self.wf(),
        ensures
            zip.wf(),
            zip@ == self@.parts,
    {
        &self.zip
    }

    /// The path of a sheet's part.
    pub fn sheet_path(&self, sheet: &str) -> (r: SpreadsheetResult<&str>)
        requires
            self.wf(),
        ensures
            match r {
                Ok(path) => self@.sheets.paths.contains_key(sheet@) && path@
                    == self@.sheets.paths[sheet@],
                Err(e) => !self@.sheets.paths.contains_key(sheet@) && e.misses(
                    crate::xlsb_package::no_sheet(sheet@),
                ),
            },
    {
        match self.sheet_name_to_path.get(sheet) {
            Some(path) => Ok(path.as_str()),
            None => Err(
                SpreadsheetError::SheetNotFound(
                    quoted("XlsbUpdater: sheet \"", sheet, "\" not found in the workbook."),
                ),
            ),
        }
    }

    /// Hands over the bytes that were read from the file of a staged part.
    pub fn load_staged(&mut self, name: &str, data: Vec<u8>)
        requires
            old(self).wf(),
        ensures
            final(self).wf(),
            final(self)@ == (crate::xlsb_package::XlsbPackage {
                parts: final(self)@.parts,
                ..old(self)@
            }),
            !old(self)@.parts.staged.contains_key(name@) ==> final(self)@.parts
                == old(self)@.parts,
            old(self)@.parts.staged.contains_key(name@) ==> final(self)@.parts == (
            crate::zip_store::Parts {
                staged: old(self)@.parts.staged.insert(
                    name@,
                    crate::zip_store::Staged {
                        path: old(self)@.parts.staged[name@].path,
                        data: Some(data@),
                    },
                ),
                ..old(self)@.parts
            }),
    {
        self.zip.load_staged(name, data);
    }

    /// Moves all staged parts into memory. Nothing changes where the bytes of one
    /// have not been read.
    pub fn materialize_staged(&mut self) -> (r: SpreadsheetResult<Vec<String>>)
        requires
            old(self).wf(),
        ensures
            final(self).wf(),
            match r {
                Ok(files) => {
                    &&& old(self)@.parts.all_read()
                    &&& final(self)@ == (crate::xlsb_package::XlsbPackage {
                        parts: old(self)@.parts.materialized(),
                        ..old(self)@
                    })
                    &&& crate::biff12::texts(files@) == Seq::new(
                        old(self)@.parts.staged_order.len(),
                        |i: int| old(self)@.parts.staged[old(self)@.parts.staged_order[i]].path,
                    )
                },
                Err(e) => !old(self)@.parts.all_read() && final(self)@ == old(self)@ && e is Io,
            },
    {
        self.zip.materialize_staged()
    }

    /// Forgets all staged parts. Their files are returned.
    pub fn dispose(&mut self) -> (files: Vec<String>)
        requires
            old(self).wf(),
        ensures
            final(self).wf(),
            final(self)@ == (crate::xlsb_package::XlsbPackage {
                parts: crate::zip_store::Parts {
                    staged: Map::empty(),
                    staged_order: Seq::empty(),
                    ..old(self)@.parts
                },
                ..old(self)@
            }),
            crate::biff12::texts(files@) == Seq::new(
                old(self)@.parts.staged_order.len(),
                |i: int| old(self)@.parts.staged[old(self)@.parts.staged_order[i]].path,
            ),
    {
        self.zip.dispose()
    }

    /// Takes the files that are no longer needed.
    pub fn take_obsolete(&mut self) -> (files: Vec<String>)
        requires
            old(self).wf(),
        ensures
            final(self).wf(),
            crate::biff12::texts(files@) == old(self)@.obsolete,
            final(self)@ == (crate::xlsb_package::XlsbPackage {
                obsolete: Seq::empty(),
                ..old(self)@
            }),
    {
        let ghost before = self@;
        let files = copy_texts(&self.obsolete);
        self.obsolete = Vec::new();
        assert(self@ =~= (crate::xlsb_package::XlsbPackage { obsolete: Seq::empty(), ..before }));
        files
    }

    fn forget_file(&mut self, file: String)
        requires
            old(self).wf(),
        ensures
            final(self).wf(),
            final(self)@ == (crate::xlsb_package::XlsbPackage {
                obsolete: old(self)@.obsolete.push(file@),
                ..old(self)@
            }),
    {
        let ghost before = *self;
        self.obsolete.push(file);
        assert(crate::biff12::texts(self.obsolete@) =~= crate::biff12::texts(
            before.obsolete@,
        ).push(file@));
        assert(self@ =~= (crate::xlsb_package::XlsbPackage {
            obsolete: before@.obsolete.push(file@),
            ..before@
        }));
    }

    fn put(&mut self, name: &str, data: Vec<u8>)
        requires
            old(self).wf(),
        ensures
            final(self).wf(),
            final(self)@ == old(self)@.put(name@, data@),
    {
        let ghost before = self@;
        let dropped = self.zip.update_file(name, data);
        assert(self@ =~= (crate::xlsb_package::XlsbPackage {
            parts: before.parts.with_file(name@, data@),
            ..before
        }));
        match dropped {
            Some(file) => self.forget_file(file),
            None => {},
        }
        assert(self@ =~= before.put(name@, data@));
    }

    /// The part of a sheet.
    fn locate(&self, sheet: &str) -> (r: SpreadsheetResult<String>)
        requires
            self.wf(),
        ensures
            match r {
                Ok(path) => self@.located(sheet@) == Ok::<Seq<char>, crate::xlsx_package::Fault>(
                    path@,
                ) && self@.sheets.paths[sheet@] == path@,
                Err(e) => self@.located(sheet@) matches Err(fault) && fault.is_reported(
                    e,
                    self@.parts,
                ),
            },
    {
        match self.sheet_path(sheet) {
            Ok(path) => if self.zip.has_entry(path) {
                Ok(path.to_owned())
            } else {
                Err(
                    SpreadsheetError::InvalidFormat(
                        quoted("XlsbUpdater: worksheet part missing for sheet \"", sheet, "\"."),
                    ),
                )
            },
            Err(e) => Err(e),
        }
    }

    /// The shared strings, read from their part where that has not been done yet.
    fn load_strings(&self) -> (r: SpreadsheetResult<BinSharedStrings>)
        requires
            self.wf(),
        ensures
            match r {
                Ok(strings) => strings.wf() && self@.loaded_strings() == Ok::<
                    crate::xlsb_update_rows::BinStrings,
                    crate::xlsx_package::Fault,
                >(strings@),
                Err(e) => self@.loaded_strings() matches Err(fault) && fault.is_reported(
                    e,
                    self@.parts,
                ),
            },
    {
        if self.strings.values.len() > 0 || self.strings.part.is_some() || !self.zip.has_entry(
            "xl/sharedStrings.bin",
        ) {
            return Ok(self.strings.copy());
        }
        match self.zip.entry_data("xl/sharedStrings.bin") {
            Ok(bytes) => read_strings(bytes),
            Err(e) => Err(e),
        }
    }

    /// Reads the shared strings and forgets the cells of a sheet that pointed at
    /// them.
    fn release(&self, sheet: &[u8]) -> (r: SpreadsheetResult<BinSharedStrings>)
        requires
            self.wf(),
        ensures
            match r {
                Ok(strings) => strings.wf() && self@.released(sheet@) == Ok::<
                    crate::xlsb_package::XlsbPackage,
                    crate::xlsx_package::Fault,
                >((crate::xlsb_package::XlsbPackage { strings: strings@, ..self@ })),
                Err(e) => self@.released(sheet@) matches Err(fault) && fault.is_reported(
                    e,
                    self@.parts,
                ),
            },
    {
        let mut strings = match self.load_strings() {
            Ok(strings) => strings,
            Err(e) => return Err(e),
        };
        if strings.part.is_some() {
            match shared_string_ref_count(sheet) {
                Ok(refs) => strings.release(refs),
                Err(e) => return Err(e),
            }
        }
        Ok(strings)
    }

    /// The style for dates that the workbook offers.
    fn date_style(&self) -> (r: SpreadsheetResult<Option<usize>>)
        requires
            self.wf(),
        ensures
            match r {
                Ok(Some(style)) => self@.date_style() == Ok::<
                    Option<int>,
                    crate::xlsx_package::Fault,
                >(Some(style as int)),
                Ok(None) => self@.date_style() == Ok::<Option<int>, crate::xlsx_package::Fault>(
                    None,
                ),
                Err(e) => self@.date_style() matches Err(fault) && fault.is_reported(
                    e,
                    self@.parts,
                ),
            },
    {
        if !self.zip.has_entry("xl/styles.bin") {
            return Ok(None);
        }
        match self.zip.entry_data("xl/styles.bin") {
            Ok(bytes) => find_date_xf(bytes),
            Err(e) => Err(e),
        }
    }

    /// The looks that new cells of a sheet take over.
    fn cell_looks(&self, sheet: &[u8], fallback: StyleFallback) -> (r: SpreadsheetResult<
        CellLooks,
    >)
        requires
            self.wf(),
        ensures
            match r {
                Ok(looks) => looks.styles.wf() && self@.looks(sheet@, fallback) == Ok::<
                    crate::xlsx_update_rows::Looks,
                    crate::xlsx_package::Fault,
                >(looks@),
                Err(e) => self@.looks(sheet@, fallback) matches Err(fault) && fault.is_reported(
                    e,
                    self@.parts,
                ),
            },
    {
        if fallback == StyleFallback::General {
            return Ok(CellLooks { styles: ExistingStyles::new(), date: None });
        }
        let styles = match collect_styles(sheet) {
            Ok(styles) => styles,
            Err(e) => return Err(e),
        };
        match self.date_style() {
            Ok(date) => Ok(CellLooks { styles, date }),
            Err(e) => Err(e),
        }
    }

    /// The records of the shared strings that their part does not hold yet.
    fn new_items(&self) -> (items: Vec<u8>)
        requires
            self.wf(),
        ensures
            ({
                let n = self@.strings.values.len() as int;
                items@ == crate::xlsb_patch::string_items(
                    self@.strings.values,
                    n - self@.strings.added,
                    n,
                )
            }),
    {
        let n: usize = self.strings.values.len();
        let from: usize = n - self.strings.added;
        let ghost values = self@.strings.values;
        let mut items: Vec<u8> = Vec::new();
        let mut i: usize = from;
        assert(items@ =~= Seq::<u8>::empty());
        while i < n
            invariant
                self.wf(),
                values == self.strings.values@,
                from <= i <= n == values.len(),
                items@ == crate::xlsb_patch::string_items(values, from as int, i as int),
            decreases n - i,
        {
            push_string_item(&mut items, self.strings.values.get(i));
            i += 1;
        }
        items
    }

    /// Writes the part of the shared strings anew where it has to be.
    fn commit_shared_strings(&mut self) -> (r: SpreadsheetResult<()>)
        requires
            old(self).wf(),
        ensures
            final(self).wf(),
            final(self)@ == old(self)@.committed().book,
            match r {
                Ok(_) => old(self)@.committed().fault is None,
                Err(e) => old(self)@.committed().fault matches Some(fault) && fault.is_reported(
                    e,
                    final(self)@.parts,
                ),
            },
    {
        if !self.strings.dirty {
            return Ok(());
        }
        let ghost before = self@;
        let items = self.new_items();
        let end: usize = self.strings.end;
        let bytes: Vec<u8> = match &self.strings.part {
            None => return Ok(()),
            Some(part) => {
                if end.checked_add(items.len()).is_none() {
                    return Err(
                        invalid("XlsbUpdater: shared-string insertion offset overflows"),
                    );
                }
                if part.len().checked_add(items.len()).is_none() {
                    return Err(invalid("XlsbUpdater: shared-string size overflows"));
                }
                let mut bytes = splice_bytes(part.as_slice(), end, end, &items);
                match set_counts(&mut bytes, self.strings.total, self.strings.unique) {
                    Ok(_) => {},
                    Err(e) => return Err(e),
                }
                proof {
                    lemma_counts_length(
                        crate::xlsb_patch::spliced_bytes(part@, end as int, end as int, items@),
                        0,
                        self.strings.total,
                        self.strings.unique,
                    );
                }
                bytes
            },
        };
        let copy = vstd::slice::slice_to_vec(bytes.as_slice());
        self.put("xl/sharedStrings.bin", copy);
        self.strings.part = Some(bytes);
        self.strings.end = end + items.len();
        self.strings.added = 0;
        self.strings.dirty = false;
        proof {
            assert(self@.strings =~= before.committed().book.strings);
            assert(self@ =~= before.committed().book);
        }
        Ok(())
    }

    /// Brings the pivot caches in step with new rows of a sheet.
    fn patch_pivot_caches(&mut self, sheet_name: &str, last_row: u32, last_col: u32) -> (r:
        SpreadsheetResult<()>)
        requires
            old(self).wf(),
        ensures
            final(self).wf(),
            ({
                let done = old(self)@.with_caches(
                    sheet_name@,
                    last_row,
                    last_col,
                    old(self)@.caches.len(),
                );
                &&& final(self)@ == done.book
                &&& match r {
                    Ok(_) => done.fault is None,
                    Err(e) => done.fault matches Some(fault) && fault.is_reported(
                        e,
                        final(self)@.parts,
                    ),
                }
            }),
    {
        let ghost before = self@;
        let mut i: usize = 0;
        while i < self.pivot_cache_def_paths.len()
            invariant
                self.wf(),
                before == old(self)@,
                i <= self.pivot_cache_def_paths.len(),
                self@.caches == before.caches,
                before.caches.len() == self.pivot_cache_def_paths.len(),
                before.with_caches(sheet_name@, last_row, last_col, i as nat) == (
                crate::xlsb_package::BinOutcome { book: self@, fault: None }),
            decreases self.pivot_cache_def_paths.len() - i,
        {
            let path = self.pivot_cache_def_paths[i].as_str().to_owned();
            assert(self@.caches[i as int] == path@);
            let new_bytes: Option<Vec<u8>> = match self.zip.entry_data(path.as_str()) {
                Ok(bytes) => match update_pivot_cache(bytes, sheet_name, last_row, last_col) {
                    Ok(new_bytes) => new_bytes,
                    Err(e) => {
                        proof {
                            lemma_caches_stay(
                                before,
                                sheet_name@,
                                last_row,
                                last_col,
                                (i + 1) as nat,
                            );
                        }
                        return Err(e);
                    },
                },
                Err(_) => None,
            };
            match new_bytes {
                Some(bytes) => self.put(path.as_str(), bytes),
                None => {},
            }
            i += 1;
        }
        Ok(())
    }

    /// Writes the shared strings and brings the pivot caches in step.
    fn settle(&mut self, sheet_name: &str, last_row: u32, last_col: u32) -> (r: SpreadsheetResult<
        (),
    >)
        requires
            old(self).wf(),
        ensures
            final(self).wf(),
            ({
                let done = old(self)@.settled(sheet_name@, last_row, last_col);
                &&& final(self)@ == done.book
                &&& match r {
                    Ok(_) => done.fault is None,
                    Err(e) => {
                        &&& done.fault matches Some(crate::xlsx_package::Fault::Malformed(message))
                        &&& e.says(message)
                    },
                }
            }),
    {
        match self.commit_shared_strings() {
            Ok(_) => {},
            Err(e) => return Err(e),
        }
        proof {
            lemma_caches_malformed(self@, sheet_name@, last_row, last_col, self@.caches.len());
        }
        self.patch_pivot_caches(sheet_name, last_row, last_col)
    }

    /// Puts new rows into a sheet.
    fn refill(
        &mut self,
        sheet_name: &str,
        path: &str,
        sheet: &[u8],
        rows: &Vec<Vec<CellValue>>,
        headers: &Option<Vec<String>>,
        looks: &CellLooks,
        numbers: &NumberTable,
    ) -> (r: SpreadsheetResult<()>)
        requires
            old(self).wf(),
            looks.styles.wf(),
            rows.len() < usize::MAX,
            old(self)@.sheets.paths[sheet_name@] == path@,
        ensures
            final(self).wf(),
            ({
                let done = old(self)@.refilled(
                    sheet_name@,
                    sheet@,
                    crate::formats::sheet_cells(rows@),
                    crate::xlsx_update_rows::optional_texts(*headers),
                    looks@,
                    *numbers,
                );
                &&& final(self)@ == done.book
                &&& match r {
                    Ok(_) => done.fault is None,
                    Err(e) => done.fault matches Some(fault) && fault.is_reported(
                        e,
                        final(self)@.parts,
                    ),
                }
            }),
    {
        let ghost before = self@;
        let width: usize = widest_row(rows, headers);
        let total: usize = if headers.is_some() {
            rows.len() + 1
        } else {
            rows.len()
        };
        let last_col: usize = if width > 0 {
            width - 1
        } else {
            0
        };
        let last_row: usize = if total > 0 {
            total - 1
        } else {
            0
        };
        let data = build_rows(
            &mut self.strings,
            headers,
            rows,
            last_col,
            looks,
            numbers,
        );
        let ghost filled = self@;
        assert(filled =~= (crate::xlsb_package::XlsbPackage { strings: filled.strings, ..before }));
        let last_row: u32 = to_low32(last_row as u64);
        let last_col: u32 = to_low32(last_col as u64);
        let new_sheet = match patch_sheet(sheet, &data, last_row, last_col) {
            Ok(new_sheet) => new_sheet,
            Err(e) => return Err(e),
        };
        self.put(path, new_sheet);
        self.settle(sheet_name, last_row, last_col)
    }

    /// Clears the rows of a sheet and writes new ones in their place. The texts
    /// and bits of the numbers come from `numbers`.
    pub fn replace_sheet_data(
        &mut self,
        sheet_name: &str,
        rows: Vec<Vec<CellValue>>,
        options: Option<ReplaceSheetDataOptions>,
        numbers: &NumberTable,
    ) -> (r: SpreadsheetResult<()>)
        requires
            old(self).wf(),
            crate::formats::knows_sheet(*numbers, crate::formats::sheet_cells(rows@)),
            rows.len() < usize::MAX,
        ensures
            final(self).wf(),
            ({
                let (headers, fallback) = crate::xlsx_updater::chosen(options);
                let done = old(self)@.replaced(
                    sheet_name@,
                    crate::formats::sheet_cells(rows@),
                    headers,
                    fallback,
                    *numbers,
                );
                &&& final(self)@ == done.book
                &&& match r {
                    Ok(_) => done.fault is None,
                    Err(e) => done.fault matches Some(fault) && fault.is_reported(
                        e,
                        final(self)@.parts,
                    ),
                }
            }),
    {
        let ghost before = self@;
        let options = match options {
            Some(options) => options,
            None => ReplaceSheetDataOptions::default(),
        };
        let rows = without_trailing_rows(rows);
        let path = match self.locate(sheet_name) {
            Ok(path) => path,
            Err(e) => return Err(e),
        };
        let sheet: Vec<u8> = match self.zip.entry_data(path.as_str()) {
            Ok(bytes) => vstd::slice::slice_to_vec(bytes),
            Err(e) => return Err(e),
        };
        assert(before.sheet_bytes(sheet_name@) == Ok::<Seq<u8>, crate::xlsx_package::Fault>(
            sheet@,
        ));
        let strings = match self.release(sheet.as_slice()) {
            Ok(strings) => strings,
            Err(e) => return Err(e),
        };
        self.strings = strings;
        let ghost ready = self@;
        assert(ready =~= (crate::xlsb_package::XlsbPackage { strings: strings@, ..before }));
        let looks = match self.cell_looks(sheet.as_slice(), options.style_fallback) {
            Ok(looks) => looks,
            Err(e) => return Err(e),
        };
        self.refill(sheet_name, path.as_str(), sheet.as_slice(), &rows, &options.headers, &looks, numbers)
    }

    /// Starts to replace the rows of a sheet by rows that come one by one.
    pub fn begin_stream(
        &mut self,
        sheet_name: &str,
        options: Option<ReplaceSheetDataOptions>,
    ) -> (r: SpreadsheetResult<BinRowStream>)
        requires
            old(self).wf(),
        ensures
            final(self).wf(),
            ({
                let (headers, fallback) = crate::xlsx_updater::chosen(options);
                match r {
                    Ok(stream) => {
                        &&& stream.wf()
                        &&& old(self)@.begun(sheet_name@, headers, fallback) matches Ok(begun)
                        &&& final(self)@ == begun.book
                        &&& stream@ == begun.stream
                        &&& stream.header_bytes() == begun.header
                    },
                    Err(e) => {
                        &&& old(self)@.begun(sheet_name@, headers, fallback) matches Err(fault)
                        &&& fault.is_reported(e, old(self)@.parts)
                        &&& final(self)@ == old(self)@
                    },
                }
            }),
    {
        let ghost before = self@;
        let options = match options {
            Some(options) => options,
            None => ReplaceSheetDataOptions::default(),
        };
        let path = match self.locate(sheet_name) {
            Ok(path) => path,
            Err(e) => return Err(e),
        };
        let staged_before: Option<String> = match self.zip.staged_path(path.as_str()) {
            Some(file) => Some(file.to_owned()),
            None => None,
        };
        let strings_part: Option<Vec<u8>> = if self.zip.has_entry("xl/sharedStrings.bin") {
            match self.zip.entry_data("xl/sharedStrings.bin") {
                Ok(bytes) => Some(vstd::slice::slice_to_vec(bytes)),
                Err(e) => return Err(e),
            }
        } else {
            None
        };
        let sheet: Vec<u8> = match self.zip.entry_data(path.as_str()) {
            Ok(bytes) => vstd::slice::slice_to_vec(bytes),
            Err(e) => return Err(e),
        };
        let strings = match self.release(sheet.as_slice()) {
            Ok(strings) => strings,
            Err(e) => return Err(e),
        };
        let ghost ready = crate::xlsb_package::XlsbPackage { strings: strings@, ..before };
        let looks = match self.cell_looks(sheet.as_slice(), options.style_fallback) {
            Ok(looks) => looks,
            Err(e) => return Err(e),
        };
        let mut new_strings = strings;
        let mut header: Vec<u8> = Vec::new();
        let mut width: usize = 0;
        let has_headers = options.headers.is_some();
        match &options.headers {
            Some(headers) => {
                width = headers.len();
                push_row_header(&mut header, 0, 0, 0);
                push_header_cells(&mut new_strings, &mut header, headers, &looks);
            },
            None => {},
        }
        let mut strings_before = new_strings;
        std::mem::swap(&mut self.strings, &mut strings_before);
        let stream = BinRowStream {
            sheet_name: sheet_name.to_owned(),
            sheet_path: path,
            sheet_bytes: sheet,
            looks,
            strings_before,
            strings_part,
            staged_before,
            has_headers,
            header,
            width,
            seen: 0,
            kept: 0,
            pending_width: 0,
        };
        proof {
            let (headers, fallback) = crate::xlsx_updater::chosen(Some(options));
            let begun = before.begun_with(sheet_name@, headers, sheet@, ready, looks@);
            assert(header@ =~= begun.header);
            assert(self@ =~= begun.book);
            assert(stream@ == begun.stream);
        }
        Ok(stream)
    }

    /// Takes the next row. Returns its bytes, in which the number of the last
    /// column is left open, and whether everything handed over up to it stays.
    pub fn push_row(
        &mut self,
        stream: &mut BinRowStream,
        row: &[CellValue],
        numbers: &NumberTable,
    ) -> (fragment: BinRowFragment)
        requires
            old(self).wf(),
            crate::formats::knows_row(*numbers, crate::formats::row_cells(row@)),
            old(stream).wf(),
            old(stream)@.seen < u32::MAX - 1,
        ensures
            final(self).wf(),
            final(stream).wf(),
            ({
                let cells = crate::formats::row_cells(row@);
                let written = crate::xlsb_update_rows::value_cells(
                    old(self)@.strings,
                    cells,
                    cells.len(),
                    old(stream)@.looks,
                    *numbers,
                );
                &&& final(self)@ == (crate::xlsb_package::XlsbPackage {
                    strings: written.strings,
                    ..old(self)@
                })
                &&& final(stream)@ == old(stream)@.with_row(cells)
                &&& final(stream).header_bytes() == old(stream).header_bytes()
                &&& fragment.bytes@ == old(stream)@.row(written.bytes)
                &&& fragment.stays == !crate::xlsx_package::is_blank(cells)
            }),
    {
        let ghost before = self@;
        let mut bytes: Vec<u8> = Vec::new();
        let number: usize = if stream.has_headers {
            stream.seen as usize + 1
        } else {
            stream.seen as usize
        };
        push_row(&mut self.strings, &mut bytes, number, 0, row, &stream.looks, numbers);
        let ghost cells = crate::formats::row_cells(row@);
        let ghost written = crate::xlsb_update_rows::value_cells(
            before.strings,
            cells,
            cells.len(),
            stream.looks@,
            *numbers,
        );
        proof {
            assert(bytes@ =~= stream@.row(written.bytes));
            assert(self@ =~= (crate::xlsb_package::XlsbPackage {
                strings: written.strings,
                ..before
            }));
        }
        let blank = blank_row(row);
        stream.seen = stream.seen + 1;
        if blank {
            if stream.pending_width < row.len() {
                stream.pending_width = row.len();
            }
        } else {
            if stream.width < stream.pending_width {
                stream.width = stream.pending_width;
            }
            if stream.width < row.len() {
                stream.width = row.len();
            }
            stream.pending_width = 0;
            stream.kept = stream.seen;
        }
        BinRowFragment { bytes, stays: !blank }
    }

    /// Goes back to the state before the rows came.
    pub fn abort_stream(&mut self, stream: BinRowStream, output_path: &str)
        requires
            old(self).wf(),
            stream.wf(),
        ensures
            final(self).wf(),
            final(self)@ == old(self)@.rolled_back(stream@, output_path@),
    {
        let ghost before = self@;
        let BinRowStream { sheet_path, strings_before, strings_part, staged_before, .. } = stream;
        match strings_part {
            Some(bytes) => self.put("xl/sharedStrings.bin", bytes),
            None => {},
        }
        let ghost restored = self@;
        self.strings = strings_before;
        let file = self.zip.rollback_staged(sheet_path.as_str(), staged_before, output_path);
        assert(self@ =~= (crate::xlsb_package::XlsbPackage {
            strings: stream@.strings_before,
            parts: restored.parts.rolled_back(
                stream@.path,
                stream@.staged_before,
                output_path@,
            ),
            ..restored
        }));
        match file {
            Some(file) => self.forget_file(file),
            None => {},
        }
        assert(self@ =~= before.rolled_back(stream@, output_path@));
    }

    /// Puts the rows that came one by one in place: the sheet's part now stands in
    /// the file with this path. On failure the shared strings and the sheet are as
    /// before the rows came.
    pub fn complete_stream(&mut self, stream: BinRowStream, output_path: &str) -> (r:
        SpreadsheetResult<()>)
        requires
            old(self).wf(),
            stream.wf(),
        ensures
            final(self).wf(),
            ({
                let done = old(self)@.completed(stream@, output_path@);
                &&& final(self)@ == done.book
                &&& match r {
                    Ok(_) => done.fault is None,
                    Err(e) => done.fault matches Some(fault) && fault.is_reported(
                        e,
                        final(self)@.parts,
                    ),
                }
            }),
    {
        let ghost before = self@;
        let last_row: u32 = stream.last_row();
        let last_col: u32 = stream.last_col();
        self.zip.stage_part(stream.sheet_path.as_str(), output_path);
        assert(self@ =~= (crate::xlsb_package::XlsbPackage {
            parts: before.parts.with_staged(stream@.path, output_path@),
            ..before
        }));
        match self.settle(stream.sheet_name.as_str(), last_row, last_col) {
            Ok(_) => {},
            Err(e) => {
                self.abort_stream(stream, output_path);
                return Err(e);
            },
        }
        match stream.staged_before {
            Some(file) => {
                if !crate::text::eq_str(file.as_str(), output_path) {
                    self.forget_file(file);
                }
            },
            None => {},
        }
        Ok(())
    }
}

/// Pivot caches that could not be brought in step stay so.
proof fn lemma_caches_stay(
    book: crate::xlsb_package::XlsbPackage,
    sheet: Seq<char>,
    last_row: u32,
    last_col: u32,
    n: nat,
)
    requires
        n <= book.caches.len(),
        book.with_caches(sheet, last_row, last_col, n).fault is Some,
    ensures
        book.with_caches(sheet, last_row, last_col, book.caches.len()) == book.with_caches(
            sheet,
            last_row,
            last_col,
            n,
        ),
    decreases book.caches.len() - n,
{
    if n < book.caches.len() {
        lemma_caches_stay(book, sheet, last_row, last_col, n + 1);
    }
}

/// What keeps pivot caches from being brought in step is that one is malformed.
proof fn lemma_caches_malformed(
    book: crate::xlsb_package::XlsbPackage,
    sheet: Seq<char>,
    last_row: u32,
    last_col: u32,
    n: nat,
)
    ensures
        book.with_caches(sheet, last_row, last_col, n).fault matches Some(fault)
            ==> fault is Malformed,
    decreases n,
{
    if n > 0 {
        lemma_caches_malformed(book, sheet, last_row, last_col, (n - 1) as nat);
    }
}

/// Setting the counts of the shared strings keeps the length of their part.
proof fn lemma_counts_length(buf: Seq<u8>, pos: int, total: u32, unique: u32)
    requires
        0 <= pos <= buf.len() <= usize::MAX,
    ensures
        crate::xlsb_patch::with_counts(buf, pos, total, unique) matches Ok(s) ==> s.len()
            == buf.len(),
    decreases buf.len() - pos,
{
    crate::biff12::lemma_record_bounds(buf, pos);
    if let Ok(Some(rec)) = crate::biff12::record_at(buf, pos) {
        lemma_counts_length(buf, rec.data_end as int, total, unique);
    }
}

} // verus!
