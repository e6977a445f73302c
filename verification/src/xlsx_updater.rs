//! Updating the rows of a worksheet inside an existing XLSX workbook.
//!
//! Everything outside the rows of the sheet stays: pivot tables and their caches,
//! other sheets, styles, themes, defined names.

use vstd::prelude::*;
use crate::error::{SpreadsheetError, SpreadsheetResult};
use crate::formats::CellValue;
use crate::name_map::NameMap;
use crate::number::NumberTable;
use crate::relationships::parse_relationships;
use crate::string_table::StringTable;
use crate::text::{chars_of, decimal_text, string_of, text_of_bytes};
use crate::xlsx_package::{ReplaceSheetDataOptions, StyleFallback};
use crate::xlsx_patch::{
    append_shared_strings, dim_ref_for, is_pivot_cache_def, is_pivot_table_def,
    lay_out_around_rows, patch_sheet_xml, refresh_pivot_table, update_pivot_cache,
};
use crate::xlsx_styles::{
    collect_existing_styles, find_date_style_index, shared_string_ref_count, ExistingStyles,
};
use crate::xlsx_update_rows::{
    build_sheet_data, copy_texts, push_header_cells, push_value_cells, CellLooks, SharedStrings,
};
use crate::xml_documents::{parse_shared_strings_xml, uses_1904_date_system};
use crate::xml_patch::{find_tag, parse_decimal, push_all, push_text};
use crate::xml_tags::{find_open_tag, tag_attribute};
use crate::xml_utils::{matches_at, trim_trailing_empty_rows, unescape_chars};
use crate::zip_store::ZipStore;

verus! {

struct PivotCacheDef {
    path: String,
    xml: Vec<char>,
}

impl View for PivotCacheDef {
    type V = crate::xlsx_package::CacheDef;

    closed spec fn view(&self) -> crate::xlsx_package::CacheDef {
        crate::xlsx_package::CacheDef { path: self.path@, xml: self.xml@ }
    }
}

spec fn cache_defs(list: Seq<PivotCacheDef>) -> Seq<crate::xlsx_package::CacheDef> {
    Seq::new(list.len(), |i: int| list[i]@)
}

/// An XLSX workbook that is updated.
pub struct XlsxUpdater {
    zip: ZipStore,
    sheet_name_to_path: NameMap<String>,
    sheet_order: Vec<String>,
    pivot_cache_defs: Vec<PivotCacheDef>,
    pivot_table_def_paths: Vec<String>,
    strings: SharedStrings,
    uses_1904_date_system: bool,
    obsolete: Vec<String>,
}

/// A macro-enabled workbook that is updated. Its macros pass through untouched.
pub type XlsmUpdater = XlsxUpdater;

/// The texts of a map.
pub open spec fn path_map(m: Map<Seq<char>, String>) -> Map<Seq<char>, Seq<char>> {
    m.map_values(|s: String| s@)
}

impl View for XlsxUpdater {
    type V = crate::xlsx_package::XlsxPackage;

    closed spec fn view(&self) -> crate::xlsx_package::XlsxPackage {
        crate::xlsx_package::XlsxPackage {
            parts: self.zip@,
            sheets: crate::xlsx_package::SheetPaths {
                order: crate::biff12::texts(self.sheet_order@),
                paths: path_map(self.sheet_name_to_path@),
            },
            caches: cache_defs(self.pivot_cache_defs@),
            tables: crate::biff12::texts(self.pivot_table_def_paths@),
            strings: self.strings@,
            uses_1904: self.uses_1904_date_system,
            obsolete: crate::biff12::texts(self.obsolete@),
        }
    }
}

/// The UTF-8 bytes of a text.
fn bytes_of(chars: &[char]) -> (bytes: Vec<u8>)
    ensures
        bytes@ == vstd::utf8::encode_utf8(chars@),
{
    let text = string_of(chars);
    vstd::slice::slice_to_vec(text.as_str().as_bytes())
}

/// A name between two texts.
pub fn quoted(front: &str, name: &str, back: &str) -> (s: String)
    ensures
        s@ == front@ + name@ + back@,
{
    let mut s = front.to_owned();
    s.append(name);
    s.append(back);
    s
}

/// The path of a sheet's part.
pub fn part_path_of(target: &str) -> (path: String)
    ensures
        path@ == crate::xlsx_package::sheet_part_path(target@),
{
    let chars = chars_of(target);
    let root = chars_of("xl/");
    if chars.len() > 0 && chars[0] == '/' {
        let bare = vstd::slice::slice_subrange(chars.as_slice(), 1, chars.len());
        assert(bare@ =~= target@.skip(1));
        string_of(bare)
    } else if matches_at(&chars, &root, 0) {
        target.to_owned()
    } else {
        let mut path = "xl/".to_owned();
        path.append(target);
        path
    }
}

/// The text of a part, nothing where its bytes are not at hand.
pub fn text_of_part(zip: &ZipStore, name: &str) -> (text: String)
    requires
        zip.wf(),
    ensures
        text@ == crate::xlsx_package::part_text(zip@, name@),
{
    match zip.entry_data(name) {
        Ok(bytes) => text_of_bytes(bytes),
        Err(_) => {
            let none: Vec<u8> = Vec::new();
            assert(none@ =~= Seq::<u8>::empty());
            text_of_bytes(&none)
        },
    }
}

/// The sheets that a workbook document names.
pub struct Sheets {
    pub order: Vec<String>,
    pub paths: NameMap<String>,
}

impl View for Sheets {
    type V = crate::xlsx_package::SheetPaths;

    open spec fn view(&self) -> crate::xlsx_package::SheetPaths {
        crate::xlsx_package::SheetPaths {
            order: crate::biff12::texts(self.order@),
            paths: path_map(self.paths@),
        }
    }
}

impl Sheets {
    pub open spec fn wf(self) -> bool {
        self.paths.wf()
    }

    /// No sheets.
    pub fn new() -> (r: Self)
        ensures
            r.wf(),
            r@ == (crate::xlsx_package::SheetPaths { order: Seq::empty(), paths: Map::empty() }),
    {
        let r = Sheets { order: Vec::new(), paths: NameMap::new() };
        assert(r@ =~= (crate::xlsx_package::SheetPaths {
            order: Seq::empty(),
            paths: Map::empty(),
        }));
        r
    }

    /// Adds a sheet, unless its part has no path.
    pub fn add_sheet(&mut self, name: &str, path: String)
        requires
            old(self).wf(),
        ensures
            final(self).wf(),
            final(self)@ == old(self)@.with_sheet(name@, path@),
    {
        let ghost before = *self;
        proof {
            reveal_strlit("");
            if path@.len() == 0 {
                assert(path@ =~= ""@);
            }
        }
        if !crate::text::eq_str(path.as_str(), "") {
            self.order.push(name.to_owned());
            self.paths.insert(name, path);
            assert(crate::biff12::texts(self.order@) =~= crate::biff12::texts(before.order@).push(
                name@,
            ));
            assert(self@ =~= before@.with_sheet(name@, path@));
        }
    }
}

fn read_sheets(xml: &[char], rels: &crate::relationships::RelationshipMap) -> (sheets: Sheets)
    ensures
        sheets.paths.wf(),
        sheets@ == crate::xlsx_package::sheets_from(
            xml@,
            0,
            rels@,
            crate::xlsx_package::SheetPaths { order: Seq::empty(), paths: Map::empty() },
        ),
{
    let local = chars_of("sheet");
    let mut sheets = Sheets::new();
    let ghost none = sheets@;
    let mut search: usize = 0;
    loop
        invariant
            local@ == "sheet"@,
            search <= xml.len(),
            sheets.paths.wf(),
            none == (crate::xlsx_package::SheetPaths { order: Seq::empty(), paths: Map::empty() }),
            crate::xlsx_package::sheets_from(xml@, 0, rels@, none)
                == crate::xlsx_package::sheets_from(xml@, search as int, rels@, sheets@),
        decreases xml.len() - search,
    {
        match find_open_tag(xml, search, &local) {
            None => return sheets,
            Some((start, end)) => {
                let tag = vstd::slice::slice_subrange(xml, start, end);
                if let (Some(raw_name), Some(id)) = (
                    tag_attribute(tag, "name"),
                    tag_attribute(tag, "r:id"),
                ) {
                    let name_chars = unescape_chars(&raw_name);
                    let name = string_of(&name_chars);
                    let id_text = string_of(&id);
                    let path = match rels.get(id_text.as_str()) {
                        Some(target) => part_path_of(target),
                        None => {
                            assert("".view() =~= Seq::<char>::empty()) by {
                                reveal_strlit("");
                            }
                            part_path_of("")
                        },
                    };
                    sheets.add_sheet(name.as_str(), path);
                }
                search = end;
            },
        }
    }
}

/// The pivot caches and the pivot tables of a workbook.
struct Pivots {
    caches: Vec<PivotCacheDef>,
    tables: Vec<String>,
}

fn read_pivots(zip: &ZipStore) -> (r: SpreadsheetResult<Pivots>)
    requires
        zip.wf(),
    ensures
        ({
            let names = zip@.names();
            match r {
                Ok(pivots) => {
                    &&& cache_defs(pivots.caches@) == crate::xlsx_package::caches_of(
                        zip@,
                        names,
                        names.len(),
                    )
                    &&& crate::biff12::texts(pivots.tables@) == crate::xlsx_package::tables_of(
                        names,
                        names.len(),
                    )
                },
                Err(e) => exists|name: Seq<char>| #[trigger]
                    names.contains(name) && zip@.content(name) is None && zip@.lacks(name, e),
            }
        }),
{
    let names = zip.entry_names();
    let ghost all = zip@.names();
    let mut caches: Vec<PivotCacheDef> = Vec::new();
    let mut tables: Vec<String> = Vec::new();
    let mut i: usize = 0;
    assert(cache_defs(caches@) =~= Seq::<crate::xlsx_package::CacheDef>::empty());
    assert(crate::biff12::texts(tables@) =~= Seq::<Seq<char>>::empty());
    while i < names.len()
        invariant
            zip.wf(),
            all == zip@.names(),
            crate::biff12::texts(names@) == all,
            i <= names.len(),
            cache_defs(caches@) == crate::xlsx_package::caches_of(zip@, all, i as nat),
            crate::biff12::texts(tables@) == crate::xlsx_package::tables_of(all, i as nat),
        decreases names.len() - i,
    {
        let name = names[i].as_str();
        assert(all[i as int] == name@);
        if is_pivot_cache_def(name) {
            match zip.entry_data(name) {
                Ok(bytes) => {
                    let text = text_of_bytes(bytes);
                    let xml = chars_of(text.as_str());
                    let ghost earlier = caches@;
                    let ghost def = crate::xlsx_package::CacheDef { path: name@, xml: xml@ };
                    caches.push(PivotCacheDef { path: name.to_owned(), xml });
                    assert(cache_defs(caches@) =~= cache_defs(earlier).push(def));
                },
                Err(e) => {
                    assert(all.contains(all[i as int]));
                    return Err(e);
                },
            }
        } else if is_pivot_table_def(name) {
            let ghost earlier = tables@;
            tables.push(name.to_owned());
            assert(crate::biff12::texts(tables@) =~= crate::biff12::texts(earlier).push(name@));
        }
        i += 1;
    }
    Ok(Pivots { caches, tables })
}

/// The shared strings that a document holds.
fn read_strings(text: String) -> (strings: SharedStrings)
    ensures
        strings.wf(),
        strings@ == crate::xlsx_package::strings_in(text@),
{
    let list = parse_shared_strings_xml(text.as_str());
    let ghost found = crate::biff12::texts(list@);
    let mut values = StringTable::new();
    let mut i: usize = 0;
    while i < list.len()
        invariant
            i <= list.len(),
            found == crate::biff12::texts(list@),
            values.wf(),
            values@ == found.take(i as int),
        decreases list.len() - i,
    {
        values.push(list[i].as_str());
        assert(values@ =~= found.take(i as int + 1));
        i += 1;
    }
    assert(found.take(i as int) =~= found);
    let xml = chars_of(text.as_str());
    let mut count: usize = list.len();
    match find_tag(&xml, 0, "sst") {
        Some(t) => match tag_attribute(
            vstd::slice::slice_subrange(xml.as_slice(), t.start, t.end),
            "count",
        ) {
            Some(digits) => match parse_decimal(&digits, usize::MAX as u64) {
                Some(n) => {
                    count = n as usize;
                },
                None => {},
            },
            None => {},
        },
        None => {},
    }
    let strings = SharedStrings {
        xml: Some(xml),
        values,
        count,
        pending: Vec::new(),
        dirty: false,
    };
    assert(strings@ =~= crate::xlsx_package::strings_in(text@));
    strings
}

/// The rows are the given ones without the empty ones at their end.
proof fn lemma_kept(rows: Seq<Seq<crate::formats::Cell>>, n: int)
    requires
        0 <= n <= rows.len(),
        forall|i: int| n <= i < rows.len() ==> crate::xlsx_package::is_blank(#[trigger] rows[i]),
        n > 0 ==> !crate::xlsx_package::is_blank(rows[n - 1]),
    ensures
        crate::xlsx_package::kept_rows(rows) == rows.take(n),
    decreases rows.len(),
{
    if n == rows.len() {
        assert(rows.take(n) =~= rows);
    } else {
        assert(crate::xlsx_package::is_blank(rows[rows.len() - 1]));
        lemma_kept(rows.drop_last(), n);
        assert(rows.drop_last().take(n) =~= rows.take(n));
    }
}

/// Removes the empty rows at the end.
pub fn without_trailing_rows(rows: Vec<Vec<CellValue>>) -> (r: Vec<Vec<CellValue>>)
    ensures
        crate::formats::sheet_cells(r@) == crate::xlsx_package::kept_rows(
            crate::formats::sheet_cells(rows@),
        ),
        r.len() <= rows.len(),
{
    let ghost all = rows@;
    let blank = |v: &CellValue| -> (b: bool)
        ensures
            b == (v@.value is Empty && v@.format is None),
        {
            match v {
                CellValue::Empty => true,
                _ => false,
            }
        };
    let r = trim_trailing_empty_rows(rows, blank);
    proof {
        let sheet = crate::formats::sheet_cells(all);
        let n = r@.len() as int;
        assert forall|i: int| n <= i < sheet.len() implies crate::xlsx_package::is_blank(
            #[trigger] sheet[i],
        ) by {
            let row = all[i]@;
            assert(crate::xml_utils::called_empty(row, blank));
            assert forall|k: int| 0 <= k < sheet[i].len() implies (#[trigger] sheet[i][k]).value
                is Empty && sheet[i][k].format is None by {
                assert(blank.ensures((&row[k],), true));
            }
        }
        if n > 0 {
            let row = all[n - 1]@;
            assert(crate::xml_utils::called_full(row, blank));
            let k = choose|k: int| 0 <= k < row.len() && blank.ensures((&#[trigger] row[k],), false);
            assert(sheet[n - 1][k] == row[k]@);
        }
        lemma_kept(sheet, n);
        assert(crate::formats::sheet_cells(r@) =~= sheet.take(n));
    }
    r
}

/// The length of the longest of rows and headers.
pub fn widest_row(rows: &Vec<Vec<CellValue>>, headers: &Option<Vec<String>>) -> (width: usize)
    ensures
        width == crate::xlsx_package::larger(
            crate::xlsx_package::widest(crate::formats::sheet_cells(rows@)),
            crate::xlsx_package::header_width(
                crate::xlsx_update_rows::optional_texts(*headers),
            ),
        ),
{
    let ghost sheet = crate::formats::sheet_cells(rows@);
    let mut width: usize = 0;
    let mut i: usize = 0;
    assert(sheet.take(0) =~= Seq::<Seq<crate::formats::Cell>>::empty());
    while i < rows.len()
        invariant
            i <= rows.len(),
            sheet == crate::formats::sheet_cells(rows@),
            width == crate::xlsx_package::widest(sheet.take(i as int)),
        decreases rows.len() - i,
    {
        proof {
            assert(sheet.take(i as int + 1).drop_last() =~= sheet.take(i as int));
            assert(sheet.take(i as int + 1).last() == crate::formats::row_cells(
                rows@[i as int]@,
            ));
        }
        if width < rows[i].len() {
            width = rows[i].len();
        }
        i += 1;
    }
    assert(sheet.take(i as int) =~= sheet);
    match headers {
        Some(h) => {
            if width < h.len() {
                width = h.len();
            }
        },
        None => {},
    }
    width
}

/// Whether all cells of a row are empty.
pub fn blank_row(row: &[CellValue]) -> (b: bool)
    ensures
        b == crate::xlsx_package::is_blank(crate::formats::row_cells(row@)),
{
    let ghost cells = crate::formats::row_cells(row@);
    let mut i: usize = 0;
    while i < row.len()
        invariant
            i <= row.len(),
            cells == crate::formats::row_cells(row@),
            forall|j: int|
                0 <= j < i ==> (#[trigger] cells[j]).value is Empty && cells[j].format is None,
        decreases row.len() - i,
    {
        let empty = match &row[i] {
            CellValue::Empty => true,
            _ => false,
        };
        if !empty {
            assert(!(cells[i as int].value is Empty && cells[i as int].format is None));
            return false;
        }
        i += 1;
    }
    true
}

/// Rows that are handed over one by one.
pub struct RowStream {
    sheet_name: String,
    sheet_path: String,
    sheet_xml: Vec<char>,
    looks: CellLooks,
    prefix: Vec<char>,
    strings_before: SharedStrings,
    strings_part: Option<Vec<u8>>,
    staged_before: Option<String>,
    has_headers: bool,
    header: String,
    width: usize,
    seen: u64,
    kept: u64,
    pending_width: usize,
}

impl View for RowStream {
    type V = crate::xlsx_package::StreamState;

    closed spec fn view(&self) -> crate::xlsx_package::StreamState {
        crate::xlsx_package::StreamState {
            sheet: self.sheet_name@,
            path: self.sheet_path@,
            xml: self.sheet_xml@,
            looks: self.looks@,
            prefix: self.prefix@,
            strings_before: self.strings_before@,
            strings_part: match self.strings_part {
                Some(bytes) => Some(bytes@),
                None => None,
            },
            staged_before: match self.staged_before {
                Some(path) => Some(path@),
                None => None,
            },
            has_headers: self.has_headers,
            width: self.width as int,
            seen: self.seen as int,
            kept: self.kept as int,
            pending_width: self.pending_width as int,
        }
    }
}

impl RowStream {
    pub closed spec fn wf(self) -> bool {
        self.looks.styles.wf() && self.strings_before.wf() && self.kept <= self.seen
    }

    pub closed spec fn header_text(self) -> Seq<char> {
        self.header@
    }

    /// The text of the header row, nothing where there are no headers.
    pub fn header_row(&self) -> (text: &str)
        ensures
            text@ == self.header_text(),
    {
        self.header.as_str()
    }

    /// Whether another row can be counted.
    pub fn has_room(&self) -> (b: bool)
        ensures
            b == (self@.seen < u64::MAX - 1),
    {
        self.seen < u64::MAX - 1
    }

    /// What goes in front of the rows that were handed over and what goes behind
    /// them.
    pub fn frame(&self) -> (r: SpreadsheetResult<(String, String)>)
        requires
            self.wf(),
            self@.seen < u64::MAX,
        ensures
            match r {
                Ok((head, tail)) => crate::xlsx_patch::around_rows(self@.xml, self@.dim()) == Ok::<
                    (Seq<char>, Seq<char>),
                    Seq<char>,
                >((head@, tail@)),
                Err(e) => crate::xlsx_patch::around_rows(self@.xml, self@.dim()) matches Err(
                    message,
                ) && e.says(message),
            },
    {
        let dim = self.dim_text();
        match lay_out_around_rows(&self.sheet_xml, dim.as_str()) {
            Ok((head, tail)) => Ok((string_of(&head), string_of(&tail))),
            Err(e) => Err(e),
        }
    }

    fn dim_text(&self) -> (s: String)
        requires
            self.wf(),
            self@.seen < u64::MAX,
        ensures
            s@ == self@.dim(),
    {
        let total: u64 = if self.has_headers {
            self.kept + 1
        } else {
            self.kept
        };
        let columns: usize = if self.width < 1 {
            1
        } else {
            self.width
        };
        dim_ref_for(total, columns)
    }
}

/// A row as text, and whether everything handed over up to it stays.
pub struct RowFragment {
    pub text: String,
    pub stays: bool,
}

impl XlsxUpdater {
    pub closed spec fn wf(self) -> bool {
        self.zip.wf() && self.sheet_name_to_path.wf() && self.strings.wf()
    }

    /// Reads the structure of a workbook from the parts of its archive.
    pub fn open(zip: ZipStore) -> (r: SpreadsheetResult<Self>)
        requires
            zip.wf(),
        ensures
            match r {
                Ok(updater) => {
                    &&& updater.wf()
                    &&& crate::xlsx_package::refused(zip@) is None
                    &&& updater@ == crate::xlsx_package::opened(zip@)
                },
                Err(e) => match crate::xlsx_package::refused(zip@) {
                    Some(message) => e.says(message),
                    None => exists|name: Seq<char>| #[trigger]
                        zip@.names().contains(name) && zip@.content(name) is None && zip@.lacks(
                            name,
                            e,
                        ),
                },
            },
    {
        if zip.has_entry("xl/workbook.bin") {
            return Err(
                SpreadsheetError::InvalidFormat(
                    "XlsxUpdater: XLSB files are not supported yet. Convert the workbook to XLSX first.".to_owned(),
                ),
            );
        }
        if !zip.has_entry("xl/workbook.xml") {
            return Err(
                SpreadsheetError::InvalidFormat(
                    "XlsxUpdater: not a valid XLSX workbook (xl/workbook.xml missing).".to_owned(),
                ),
            );
        }
        let rels_xml = text_of_part(&zip, "xl/_rels/workbook.xml.rels");
        let rels = parse_relationships(rels_xml.as_str());
        let workbook = text_of_part(&zip, "xl/workbook.xml");
        let dates = uses_1904_date_system(workbook.as_str());
        let doc = chars_of(workbook.as_str());
        let sheets = read_sheets(&doc, &rels);
        let pivots = match read_pivots(&zip) {
            Ok(pivots) => pivots,
            Err(e) => return Err(e),
        };
        let updater = XlsxUpdater {
            zip,
            sheet_name_to_path: sheets.paths,
            sheet_order: sheets.order,
            pivot_cache_defs: pivots.caches,
            pivot_table_def_paths: pivots.tables,
            strings: SharedStrings::new(),
            uses_1904_date_system: dates,
            obsolete: Vec::new(),
        };
        assert(updater@ =~= crate::xlsx_package::opened(zip@));
        Ok(updater)
    }

    /// Worksheet names in workbook order.
    pub fn sheet_names(&self) -> (names: Vec<String>)
        ensures
            crate::biff12::texts(names@) == self@.sheets.order,
    {
        copy_texts(&self.sheet_order)
    }

    /// Whether the workbook counts its dates from 1904 on.
    pub fn counts_from_1904(&self) -> (b: bool)
        ensures
            b == self@.uses_1904,
    {
        self.uses_1904_date_system
    }

    /// The parts of the workbook.
    pub fn store(&self) -> (zip: &ZipStore)
        requires
            self.wf(),
        ensures
            zip.wf(),
            zip@ == self@.parts,
    {
        &self.zip
    }

    /// The path of a sheet's part.
    pub fn sheet_path(&self, sheet: &str) -> (r: SpreadsheetResult<&str>)
        requires
            self.wf(),
        ensures
            match r {
                Ok(path) => self@.sheets.paths.contains_key(sheet@) && path@
                    == self@.sheets.paths[sheet@],
                Err(e) => !self@.sheets.paths.contains_key(sheet@) && e.misses(
                    crate::xlsx_package::no_sheet(sheet@),
                ),
            },
    {
        match self.sheet_name_to_path.get(sheet) {
            Some(path) => Ok(path.as_str()),
            None => Err(
                SpreadsheetError::SheetNotFound(
                    quoted("XlsxUpdater: sheet \"", sheet, "\" not found in the workbook."),
                ),
            ),
        }
    }

    /// Hands over the bytes that were read from the file of a staged part.
    pub fn load_staged(&mut self, name: &str, data: Vec<u8>)
        requires
            old(self).wf(),
        ensures
            final(self).wf(),
            final(self)@ == (crate::xlsx_package::XlsxPackage {
                parts: final(self)@.parts,
                ..old(self)@
            }),
            !old(self)@.parts.staged.contains_key(name@) ==> final(self)@.parts
                == old(self)@.parts,
            old(self)@.parts.staged.contains_key(name@) ==> final(self)@.parts == (
            crate::zip_store::Parts {
                staged: old(self)@.parts.staged.insert(
                    name@,
                    crate::zip_store::Staged {
                        path: old(self)@.parts.staged[name@].path,
                        data: Some(data@),
                    },
                ),
                ..old(self)@.parts
            }),
    {
        self.zip.load_staged(name, data);
    }

    /// Moves all staged parts into memory. Nothing changes where the bytes of one
    /// have not been read.
    pub fn materialize_staged(&mut self) -> (r: SpreadsheetResult<Vec<String>>)
        requires
            old(self).wf(),
        ensures
            final(self).wf(),
            match r {
                Ok(files) => {
                    &&& old(self)@.parts.all_read()
                    &&& final(self)@ == (crate::xlsx_package::XlsxPackage {
                        parts: old(self)@.parts.materialized(),
                        ..old(self)@
                    })
                    &&& crate::biff12::texts(files@) == Seq::new(
                        old(self)@.parts.staged_order.len(),
                        |i: int| old(self)@.parts.staged[old(self)@.parts.staged_order[i]].path,
                    )
                },
                Err(e) => !old(self)@.parts.all_read() && final(self)@ == old(self)@ && e is Io,
            },
    {
        self.zip.materialize_staged()
    }

    /// Forgets all staged parts. Their files are returned.
    pub fn dispose(&mut self) -> (files: Vec<String>)
        requires
            old(self).wf(),
        ensures
            final(self).wf(),
            final(self)@ == (crate::xlsx_package::XlsxPackage {
                parts: crate::zip_store::Parts {
                    staged: Map::empty(),
                    staged_order: Seq::empty(),
                    ..old(self)@.parts
                },
                ..old(self)@
            }),
            crate::biff12::texts(files@) == Seq::new(
                old(self)@.parts.staged_order.len(),
                |i: int| old(self)@.parts.staged[old(self)@.parts.staged_order[i]].path,
            ),
    {
        self.zip.dispose()
    }

    /// Takes the files that are no longer needed.
    pub fn take_obsolete(&mut self) -> (files: Vec<String>)
        requires
            old(self).wf(),
        ensures
            final(self).wf(),
            crate::biff12::texts(files@) == old(self)@.obsolete,
            final(self)@ == (crate::xlsx_package::XlsxPackage {
                obsolete: Seq::empty(),
                ..old(self)@
            }),
    {
        let ghost before = self@;
        let files = copy_texts(&self.obsolete);
        self.obsolete = Vec::new();
        assert(self@ =~= (crate::xlsx_package::XlsxPackage { obsolete: Seq::empty(), ..before }));
        files
    }

    fn forget_file(&mut self, file: String)
        requires
            old(self).wf(),
        ensures
            final(self).wf(),
            final(self)@ == (crate::xlsx_package::XlsxPackage {
                obsolete: old(self)@.obsolete.push(file@),
                ..old(self)@
            }),
    {
        let ghost before = *self;
        self.obsolete.push(file);
        assert(crate::biff12::texts(self.obsolete@) =~= crate::biff12::texts(
            before.obsolete@,
        ).push(file@));
        assert(self@ =~= (crate::xlsx_package::XlsxPackage {
            obsolete: before@.obsolete.push(file@),
            ..before@
        }));
    }

    fn put_bytes(&mut self, name: &str, data: Vec<u8>)
        requires
            old(self).wf(),
        ensures
            final(self).wf(),
            final(self)@ == old(self)@.put_bytes(name@, data@),
    {
        let ghost before = self@;
        let dropped = self.zip.update_file(name, data);
        assert(self@ =~= (crate::xlsx_package::XlsxPackage {
            parts: before.parts.with_file(name@, data@),
            ..before
        }));
        match dropped {
            Some(file) => self.forget_file(file),
            None => {},
        }
        assert(self@ =~= before.put_bytes(name@, data@));
    }

    fn put(&mut self, name: &str, text: &[char])
        requires
            old(self).wf(),
        ensures
            final(self).wf(),
            final(self)@ == old(self)@.put(name@, text@),
    {
        let bytes = bytes_of(text);
        self.put_bytes(name, bytes);
    }

    /// The part of a sheet.
    fn locate(&self, sheet: &str) -> (r: SpreadsheetResult<String>)
        requires
            self.wf(),
        ensures
            match r {
                Ok(path) => self@.located(sheet@) == Ok::<Seq<char>, crate::xlsx_package::Fault>(
                    path@,
                ) && self@.sheets.paths[sheet@] == path@,
                Err(e) => self@.located(sheet@) matches Err(fault) && fault.is_reported(
                    e,
                    self@.parts,
                ),
            },
    {
        match self.sheet_path(sheet) {
            Ok(path) => if self.zip.has_entry(path) {
                Ok(path.to_owned())
            } else {
                Err(
                    SpreadsheetError::InvalidFormat(
                        quoted("XlsxUpdater: worksheet part missing for sheet \"", sheet, "\"."),
                    ),
                )
            },
            Err(e) => Err(e),
        }
    }

    /// The shared strings, read from their part where that has not been done yet.
    fn load_strings(&self) -> (r: SpreadsheetResult<SharedStrings>)
        requires
            self.wf(),
        ensures
            match r {
                Ok(strings) => strings.wf() && self@.loaded_strings() == Ok::<
                    crate::xlsx_update_rows::Strings,
                    crate::xlsx_package::Fault,
                >(strings@),
                Err(e) => self@.loaded_strings() matches Err(fault) && fault.is_reported(
                    e,
                    self@.parts,
                ),
            },
    {
        if self.strings.values.len() > 0 || self.strings.xml.is_some() || !self.zip.has_entry(
            "xl/sharedStrings.xml",
        ) {
            return Ok(self.strings.copy());
        }
        match self.zip.entry_data("xl/sharedStrings.xml") {
            Ok(bytes) => Ok(read_strings(text_of_bytes(bytes))),
            Err(e) => Err(e),
        }
    }

    /// The style for dates that the workbook offers.
    fn date_style(&self) -> (r: SpreadsheetResult<Option<usize>>)
        requires
            self.wf(),
        ensures
            match r {
                Ok(Some(style)) => self@.date_style() == Ok::<
                    Option<int>,
                    crate::xlsx_package::Fault,
                >(Some(style as int)),
                Ok(None) => self@.date_style() == Ok::<Option<int>, crate::xlsx_package::Fault>(
                    None,
                ),
                Err(e) => self@.date_style() matches Err(fault) && fault.is_reported(
                    e,
                    self@.parts,
                ),
            },
    {
        if !self.zip.has_entry("xl/styles.xml") {
            return Ok(None);
        }
        match self.zip.entry_data("xl/styles.xml") {
            Ok(bytes) => {
                let text = text_of_bytes(bytes);
                let xml = chars_of(text.as_str());
                find_date_style_index(&xml)
            },
            Err(e) => Err(e),
        }
    }

    /// The looks that new cells of a sheet take over.
    fn cell_looks(&self, xml: &[char], fallback: StyleFallback) -> (r: SpreadsheetResult<CellLooks>)
        requires
            self.wf(),
        ensures
            match r {
                Ok(looks) => looks.styles.wf() && self@.looks(xml@, fallback) == Ok::<
                    crate::xlsx_update_rows::Looks,
                    crate::xlsx_package::Fault,
                >(looks@),
                Err(e) => self@.looks(xml@, fallback) matches Err(fault) && fault.is_reported(
                    e,
                    self@.parts,
                ),
            },
    {
        if fallback == StyleFallback::General {
            return Ok(CellLooks { styles: ExistingStyles::new(), date: None });
        }
        match self.date_style() {
            Ok(date) => Ok(CellLooks { styles: collect_existing_styles(xml), date }),
            Err(e) => Err(e),
        }
    }

    /// Reads the shared strings and forgets the cells of a sheet that pointed at
    /// them.
    fn release(&self, xml: &[char]) -> (r: SpreadsheetResult<SharedStrings>)
        requires
            self.wf(),
        ensures
            match r {
                Ok(strings) => strings.wf() && self@.released(xml@) == Ok::<
                    crate::xlsx_package::XlsxPackage,
                    crate::xlsx_package::Fault,
                >((crate::xlsx_package::XlsxPackage { strings: strings@, ..self@ })),
                Err(e) => self@.released(xml@) matches Err(fault) && fault.is_reported(
                    e,
                    self@.parts,
                ),
            },
    {
        match self.load_strings() {
            Ok(strings) => {
                let mut strings = strings;
                let refs: usize = if strings.xml.is_some() {
                    shared_string_ref_count(xml)
                } else {
                    0
                };
                strings.release(refs);
                Ok(strings)
            },
            Err(e) => Err(e),
        }
    }

    /// Writes the document of the shared strings anew where it has to be.
    fn commit_shared_strings(&mut self) -> (r: SpreadsheetResult<()>)
        requires
            old(self).wf(),
        ensures
            final(self).wf(),
            final(self)@ == old(self)@.committed().book,
            match r {
                Ok(_) => old(self)@.committed().fault is None,
                Err(e) => old(self)@.committed().fault matches Some(fault) && fault.is_reported(
                    e,
                    final(self)@.parts,
                ),
            },
    {
        if !self.strings.dirty {
            return Ok(());
        }
        let ghost before = self@;
        let text = match &self.strings.xml {
            None => return Ok(()),
            Some(xml) => match append_shared_strings(
                xml,
                self.strings.count as u64,
                self.strings.values.len() as u64,
                &self.strings.pending,
            ) {
                Ok(text) => text,
                Err(e) => return Err(e),
            },
        };
        self.put("xl/sharedStrings.xml", &text);
        self.strings.xml = Some(text);
        self.strings.pending = Vec::new();
        self.strings.dirty = false;
        proof {
            assert(crate::biff12::texts(self.strings.pending@) =~= Seq::<Seq<char>>::empty());
            assert(self@.strings =~= before.committed().book.strings);
            assert(self@ =~= before.committed().book);
        }
        Ok(())
    }

    /// Brings the pivot caches in step with new rows of a sheet.
    fn update_pivot_caches(&mut self, sheet_name: &str, dim_ref: &str, record_count: u64)
        requires
            old(self).wf(),
        ensures
            final(self).wf(),
            final(self)@ == old(self)@.with_caches(
                sheet_name@,
                dim_ref@,
                record_count as int,
                old(self)@.caches.len(),
            ),
    {
        let ghost before = self@;
        let mut i: usize = 0;
        while i < self.pivot_cache_defs.len()
            invariant
                self.wf(),
                i <= self.pivot_cache_defs.len(),
                before.caches.len() == self.pivot_cache_defs.len(),
                self@ == before.with_caches(
                    sheet_name@,
                    dim_ref@,
                    record_count as int,
                    i as nat,
                ),
                self@.caches == cache_defs(self.pivot_cache_defs@),
                forall|j: int|
                    i <= j < before.caches.len() ==> self@.caches[j] == #[trigger] before.caches[j],
            decreases self.pivot_cache_defs.len() - i,
        {
            let ghost earlier = self@;
            assert(before.caches[i as int] == self.pivot_cache_defs@[i as int]@);
            match update_pivot_cache(
                &self.pivot_cache_defs[i].xml,
                sheet_name,
                dim_ref,
                record_count,
            ) {
                None => {},
                Some(xml) => {
                    let path = self.pivot_cache_defs[i].path.as_str().to_owned();
                    self.put(path.as_str(), &xml);
                    let ghost stored = *self;
                    assert(stored@.caches == earlier.caches);
                    assert(stored.pivot_cache_defs@.len() == stored@.caches.len());
                    let ghost def = crate::xlsx_package::CacheDef { path: path@, xml: xml@ };
                    self.pivot_cache_defs[i] = PivotCacheDef { path, xml };
                    proof {
                        assert(cache_defs(self.pivot_cache_defs@) =~= stored@.caches.update(
                            i as int,
                            def,
                        ));
                        assert(self@ =~= (crate::xlsx_package::XlsxPackage {
                            caches: earlier.caches.update(i as int, def),
                            ..earlier.put(path@, xml@)
                        }));
                    }
                },
            }
            i += 1;
        }
    }

    /// Marks the pivot tables to be refreshed when the workbook is opened.
    fn add_refresh_on_load_to_pivot_tables(&mut self)
        requires
            old(self).wf(),
        ensures
            final(self).wf(),
            final(self)@ == old(self)@.with_tables(old(self)@.tables.len()),
    {
        let ghost before = self@;
        let mut i: usize = 0;
        while i < self.pivot_table_def_paths.len()
            invariant
                self.wf(),
                i <= self.pivot_table_def_paths.len(),
                self@.tables == before.tables,
                before.tables.len() == self.pivot_table_def_paths.len(),
                self@ == before.with_tables(i as nat),
            decreases self.pivot_table_def_paths.len() - i,
        {
            let path = self.pivot_table_def_paths[i].as_str().to_owned();
            assert(self@.tables[i as int] == path@);
            let new_text: Option<Vec<char>> = match self.zip.entry_data(path.as_str()) {
                Ok(bytes) => {
                    let text = text_of_bytes(bytes);
                    let xml = chars_of(text.as_str());
                    refresh_pivot_table(&xml)
                },
                Err(_) => None,
            };
            match new_text {
                Some(xml) => self.put(path.as_str(), &xml),
                None => {},
            }
            i += 1;
        }
    }

    /// Writes the shared strings and brings pivot caches and tables in step.
    fn settle(&mut self, sheet_name: &str, dim_ref: &str, record_count: u64) -> (r:
        SpreadsheetResult<()>)
        requires
            old(self).wf(),
        ensures
            final(self).wf(),
            final(self)@ == old(self)@.settled(sheet_name@, dim_ref@, record_count as int).book,
            match r {
                Ok(_) => old(self)@.settled(
                    sheet_name@,
                    dim_ref@,
                    record_count as int,
                ).fault is None,
                Err(e) => old(self)@.settled(
                    sheet_name@,
                    dim_ref@,
                    record_count as int,
                ).fault matches Some(fault) && fault.is_reported(e, final(self)@.parts),
            },
    {
        match self.commit_shared_strings() {
            Ok(_) => {},
            Err(e) => return Err(e),
        }
        self.update_pivot_caches(sheet_name, dim_ref, record_count);
        self.add_refresh_on_load_to_pivot_tables();
        Ok(())
    }

    /// Clears the rows of a sheet and writes new ones in their place. The texts
    /// and bits of the numbers come from `numbers`.
    pub fn replace_sheet_data(
        &mut self,
        sheet_name: &str,
        rows: Vec<Vec<CellValue>>,
        options: Option<ReplaceSheetDataOptions>,
        numbers: &NumberTable,
    ) -> (r: SpreadsheetResult<()>)
        requires
            old(self).wf(),
            crate::formats::knows_sheet(*numbers, crate::formats::sheet_cells(rows@)),
            rows.len() < usize::MAX,
        ensures
            final(self).wf(),
            ({
                let (headers, fallback) = chosen(options);
                let done = old(self)@.replaced(
                    sheet_name@,
                    crate::formats::sheet_cells(rows@),
                    headers,
                    fallback,
                    *numbers,
                );
                &&& final(self)@ == done.book
                &&& match r {
                    Ok(_) => done.fault is None,
                    Err(e) => done.fault matches Some(fault) && fault.is_reported(
                        e,
                        final(self)@.parts,
                    ),
                }
            }),
    {
        let ghost before = self@;
        let options = match options {
            Some(options) => options,
            None => ReplaceSheetDataOptions::default(),
        };
        let rows = without_trailing_rows(rows);
        let path = match self.locate(sheet_name) {
            Ok(path) => path,
            Err(e) => return Err(e),
        };
        let text = match self.zip.entry_data(path.as_str()) {
            Ok(bytes) => text_of_bytes(bytes),
            Err(e) => return Err(e),
        };
        let xml = chars_of(text.as_str());
        assert(before.sheet_text(sheet_name@) == Ok::<Seq<char>, crate::xlsx_package::Fault>(
            xml@,
        ));
        let strings = match self.release(&xml) {
            Ok(strings) => strings,
            Err(e) => return Err(e),
        };
        self.strings = strings;
        let ghost ready = self@;
        assert(ready =~= (crate::xlsx_package::XlsxPackage { strings: strings@, ..before }));
        let looks = match self.cell_looks(&xml, options.style_fallback) {
            Ok(looks) => looks,
            Err(e) => return Err(e),
        };
        let width: usize = widest_row(&rows, &options.headers);
        let total: u64 = if options.headers.is_some() {
            rows.len() as u64 + 1
        } else {
            rows.len() as u64
        };
        let data = build_sheet_data(
            &mut self.strings,
            &options.headers,
            &rows,
            &looks,
            numbers,
        );
        let ghost filled = self@;
        assert(filled =~= (crate::xlsx_package::XlsxPackage { strings: filled.strings, ..ready }));
        let new_xml = match patch_sheet_xml(&xml, &data, total, width) {
            Ok(new_xml) => new_xml,
            Err(e) => return Err(e),
        };
        self.put(path.as_str(), &new_xml);
        let dim = dim_ref_for(total, width);
        self.settle(sheet_name, dim.as_str(), rows.len() as u64)
    }

    /// Starts to replace the rows of a sheet by rows that come one by one.
    pub fn begin_stream(
        &mut self,
        sheet_name: &str,
        options: Option<ReplaceSheetDataOptions>,
    ) -> (r: SpreadsheetResult<RowStream>)
        requires
            old(self).wf(),
        ensures
            final(self).wf(),
            ({
                let (headers, fallback) = chosen(options);
                match r {
                    Ok(stream) => {
                        &&& stream.wf()
                        &&& old(self)@.begun(sheet_name@, headers, fallback) matches Ok(begun)
                        &&& final(self)@ == begun.book
                        &&& stream@ == begun.stream
                        &&& stream.header_text() == begun.header
                    },
                    Err(e) => {
                        &&& old(self)@.begun(sheet_name@, headers, fallback) matches Err(fault)
                        &&& fault.is_reported(e, old(self)@.parts)
                        &&& final(self)@ == old(self)@
                    },
                }
            }),
    {
        let ghost before = self@;
        let options = match options {
            Some(options) => options,
            None => ReplaceSheetDataOptions::default(),
        };
        let path = match self.locate(sheet_name) {
            Ok(path) => path,
            Err(e) => return Err(e),
        };
        let staged_before: Option<String> = match self.zip.staged_path(path.as_str()) {
            Some(file) => Some(file.to_owned()),
            None => None,
        };
        let strings_part: Option<Vec<u8>> = if self.zip.has_entry("xl/sharedStrings.xml") {
            match self.zip.entry_data("xl/sharedStrings.xml") {
                Ok(bytes) => Some(vstd::slice::slice_to_vec(bytes)),
                Err(e) => return Err(e),
            }
        } else {
            None
        };
        let text = match self.zip.entry_data(path.as_str()) {
            Ok(bytes) => text_of_bytes(bytes),
            Err(e) => return Err(e),
        };
        let xml = chars_of(text.as_str());
        let strings = match self.release(&xml) {
            Ok(strings) => strings,
            Err(e) => return Err(e),
        };
        let looks = match self.cell_looks(&xml, options.style_fallback) {
            Ok(looks) => looks,
            Err(e) => return Err(e),
        };
        let ghost ready = crate::xlsx_package::XlsxPackage { strings: strings@, ..before };
        let prefix: Vec<char> = match find_tag(&xml, 0, "sheetdata") {
            Some(t) => t.prefix,
            None => Vec::new(),
        };
        assert(prefix@ =~= crate::xlsx_package::rows_prefix(xml@));
        let mut new_strings = strings;
        let mut header = String::new();
        let mut width: usize = 0;
        let has_headers = options.headers.is_some();
        match &options.headers {
            Some(headers) => {
                width = headers.len();
                let mut cells: Vec<char> = Vec::new();
                push_header_cells(&mut new_strings, &mut cells, headers, &looks);
                header = row_text(&prefix, 1, &cells);
                proof {
                    let texts = crate::biff12::texts(headers@);
                    let written = crate::xlsx_update_rows::header_cells(
                        ready.strings,
                        texts,
                        texts.len(),
                        looks@,
                    );
                    assert(cells@ =~= written.xml);
                }
            },
            None => {},
        }
        let mut strings_before = new_strings;
        std::mem::swap(&mut self.strings, &mut strings_before);
        let stream = RowStream {
            sheet_name: sheet_name.to_owned(),
            sheet_path: path,
            sheet_xml: xml,
            looks,
            prefix,
            strings_before,
            strings_part,
            staged_before,
            has_headers,
            header,
            width,
            seen: 0,
            kept: 0,
            pending_width: 0,
        };
        proof {
            let (headers, fallback) = chosen(Some(options));
            let begun = before.begun_with(sheet_name@, headers, xml@, ready, looks@);
            assert(header@ =~= begun.header);
            assert(self@ =~= begun.book);
            assert(stream@ == begun.stream);
        }
        Ok(stream)
    }

    /// Takes the next row. Returns its text, and whether everything handed over up
    /// to it stays.
    pub fn push_row(&mut self, stream: &mut RowStream, row: &[CellValue], numbers: &NumberTable) -> (
    fragment: RowFragment)
        requires
            old(self).wf(),
            crate::formats::knows_row(*numbers, crate::formats::row_cells(row@)),
            old(stream).wf(),
            old(stream)@.seen < u64::MAX - 1,
        ensures
            final(self).wf(),
            final(stream).wf(),
            ({
                let cells = crate::formats::row_cells(row@);
                let written = crate::xlsx_update_rows::value_cells(
                    old(self)@.strings,
                    cells,
                    cells.len(),
                    old(stream)@.looks,
                    *numbers,
                );
                &&& final(self)@ == (crate::xlsx_package::XlsxPackage {
                    strings: written.strings,
                    ..old(self)@
                })
                &&& final(stream)@ == old(stream)@.with_row(cells)
                &&& final(stream).header_text() == old(stream).header_text()
                &&& fragment.text@ == old(stream)@.row_text(written.xml)
                &&& fragment.stays == !crate::xlsx_package::is_blank(cells)
            }),
    {
        let ghost before = self@;
        let mut cells: Vec<char> = Vec::new();
        push_value_cells(&mut self.strings, &mut cells, row, &stream.looks, numbers);
        let number: u64 = if stream.has_headers {
            stream.seen + 2
        } else {
            stream.seen + 1
        };
        let text = row_text(&stream.prefix, number, &cells);
        let ghost written = crate::xlsx_update_rows::value_cells(
            before.strings,
            crate::formats::row_cells(row@),
            row@.len(),
            stream.looks@,
            *numbers,
        );
        proof {
            assert(cells@ =~= written.xml);
            assert(self@ =~= (crate::xlsx_package::XlsxPackage {
                strings: written.strings,
                ..before
            }));
        }
        let blank = blank_row(row);
        stream.seen = stream.seen + 1;
        if blank {
            if stream.pending_width < row.len() {
                stream.pending_width = row.len();
            }
        } else {
            if stream.width < stream.pending_width {
                stream.width = stream.pending_width;
            }
            if stream.width < row.len() {
                stream.width = row.len();
            }
            stream.pending_width = 0;
            stream.kept = stream.seen;
        }
        RowFragment { text, stays: !blank }
    }

    /// Goes back to the state before the rows came.
    pub fn abort_stream(&mut self, stream: RowStream, output_path: &str)
        requires
            old(self).wf(),
            stream.wf(),
        ensures
            final(self).wf(),
            final(self)@ == old(self)@.rolled_back(stream@, output_path@),
    {
        let ghost before = self@;
        let RowStream { sheet_path, strings_before, strings_part, staged_before, .. } = stream;
        match strings_part {
            Some(bytes) => self.put_bytes("xl/sharedStrings.xml", bytes),
            None => {},
        }
        let ghost restored = self@;
        self.strings = strings_before;
        let file = self.zip.rollback_staged(sheet_path.as_str(), staged_before, output_path);
        assert(self@ =~= (crate::xlsx_package::XlsxPackage {
            strings: stream@.strings_before,
            parts: restored.parts.rolled_back(
                stream@.path,
                stream@.staged_before,
                output_path@,
            ),
            ..restored
        }));
        match file {
            Some(file) => self.forget_file(file),
            None => {},
        }
        assert(self@ =~= before.rolled_back(stream@, output_path@));
    }

    /// Puts the rows that came one by one in place: the sheet's part now stands in
    /// the file with this path. On failure everything is as before the rows came.
    pub fn complete_stream(&mut self, stream: RowStream, output_path: &str) -> (r:
        SpreadsheetResult<()>)
        requires
            old(self).wf(),
            stream.wf(),
            stream@.seen < u64::MAX,
        ensures
            final(self).wf(),
            ({
                let done = old(self)@.completed(stream@, output_path@);
                &&& final(self)@ == done.book
                &&& match r {
                    Ok(_) => done.fault is None,
                    Err(e) => done.fault matches Some(fault) && fault.is_reported(
                        e,
                        final(self)@.parts,
                    ),
                }
            }),
    {
        let ghost before = self@;
        let dim = stream.dim_text();
        self.zip.stage_part(stream.sheet_path.as_str(), output_path);
        assert(self@ =~= (crate::xlsx_package::XlsxPackage {
            parts: before.parts.with_staged(stream@.path, output_path@),
            ..before
        }));
        match self.settle(stream.sheet_name.as_str(), dim.as_str(), stream.kept) {
            Ok(_) => {},
            Err(e) => {
                self.abort_stream(stream, output_path);
                return Err(e);
            },
        }
        match stream.staged_before {
            Some(file) => {
                if !crate::text::eq_str(file.as_str(), output_path) {
                    self.forget_file(file);
                }
            },
            None => {},
        }
        Ok(())
    }
}

/// The headers and the style strategy that the options choose.
pub open spec fn chosen(options: Option<ReplaceSheetDataOptions>) -> (
    Option<Seq<Seq<char>>>,
    StyleFallback,
) {
    match options {
        Some(o) => (crate::xlsx_update_rows::optional_texts(o.headers), o.style_fallback),
        None => (None, StyleFallback::Inherit),
    }
}

/// The text of a row with a namespace prefix and its number.
fn row_text(prefix: &Vec<char>, number: u64, cells: &Vec<char>) -> (text: String)
    ensures
        text@ == crate::xlsx_update_rows::numbered_row(prefix@, number as int, cells@),
{
    let mut out = chars_of("<");
    push_all(&mut out, prefix);
    push_text(&mut out, "row r=\"");
    let digits = decimal_text(number as i128);
    push_text(&mut out, digits.as_str());
    push_text(&mut out, "\">");
    push_all(&mut out, cells);
    push_text(&mut out, "</");
    push_all(&mut out, prefix);
    push_text(&mut out, "row>");
    string_of(&out)
}

} // verus!
