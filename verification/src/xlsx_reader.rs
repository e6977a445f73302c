//! The XLSX reader.
//!
//! The reader takes the bytes of the parts of an archive. A sheet is read row by
//! row with [`XlsxReader::read`]. Where the text of a number turns up, reading
//! stops, and [`XlsxReader::resume`] takes the double that the text stands for.

use vstd::prelude::*;
use crate::error::{invalid, SpreadsheetError, SpreadsheetResult};
use crate::formats::{copy_cell, CellValue};
use crate::relationships::{parse_relationships, resolve_part, RelationshipMap};
use crate::text::{eq_str, text_of_bytes};
use crate::xlsb_reader::BookInfo;
use crate::xlsx_cell_reader::{CellPhase, XlsxCellReader};
use crate::xlsx_rows::{fault_text, RowScanner, RowSignal, RowState, Signal};
use crate::xml_documents::{
    parse_shared_strings_xml, parse_sheet_entries, parse_styles, uses_1904_date_system, NamedSheet,
};
use crate::xml_events::{next_event, open_xml, XmlItem, XmlKind, XmlSource};
use std::collections::HashSet;

verus! {

/// What the workbook part says of a sheet, and where the sheet's part is.
pub struct XlsxSheetInfo {
    pub name: String,
    pub sheet_id: String,
    pub r_id: String,
    pub path: String,
}

/// What a sheet of the workbook stands for.
pub struct PlacedSheet {
    pub name: Seq<char>,
    pub sheet_id: Seq<char>,
    pub r_id: Seq<char>,
    pub path: Seq<char>,
}

pub open spec fn placed_sheets(list: Seq<XlsxSheetInfo>) -> Seq<PlacedSheet> {
    Seq::new(
        list.len(),
        |i: int|
            PlacedSheet {
                name: list[i].name@,
                sheet_id: list[i].sheet_id@,
                r_id: list[i].r_id@,
                path: list[i].path@,
            },
    )
}

/// The sheets with the paths that the relationships give them. A sheet without a
/// relationship has the path of an empty target.
pub open spec fn placed(
    sheets: Seq<NamedSheet>,
    rels: Map<Seq<char>, Seq<char>>,
) -> Seq<PlacedSheet> {
    Seq::new(
        sheets.len(),
        |i: int|
            PlacedSheet {
                name: sheets[i].name,
                sheet_id: sheets[i].sheet_id,
                r_id: sheets[i].r_id,
                path: crate::relationships::part_path(
                    if rels.contains_key(sheets[i].r_id) {
                        rels[sheets[i].r_id]
                    } else {
                        Seq::empty()
                    },
                ),
            },
    )
}

/// What a reader stands for. The sheet being read is given by the outcomes that
/// its parser has still to give.
pub struct XlsxBookState {
    pub shared: Seq<Seq<char>>,
    pub sheets: Seq<PlacedSheet>,
    pub current: int,
    pub events: Option<Seq<Result<XmlItem, Seq<char>>>>,
    pub scan: RowState,
    pub rows: int,
    pub name: Seq<char>,
    pub results: int,
    pub formats: Seq<u16>,
    pub date_formats: Set<u16>,
    pub uses_1904: bool,
}

/// How far reading a row has come: to the end of the row, to the end of the sheet,
/// or to a number, whose text it gives.
#[derive(Debug)]
pub enum RowProgress {
    Row,
    End,
    Number(String),
}

/// How far reading a row has come.
pub enum Progress {
    Row,
    End,
    Number(Seq<char>),
}

impl View for RowProgress {
    type V = Progress;

    open spec fn view(&self) -> Progress {
        match *self {
            RowProgress::Row => Progress::Row,
            RowProgress::End => Progress::End,
            RowProgress::Number(text) => Progress::Number(text@),
        }
    }
}

/// The result of reading is the one expected.
pub open spec fn comes_to(
    r: SpreadsheetResult<RowProgress>,
    expected: Result<Progress, Seq<char>>,
) -> bool {
    match (r, expected) {
        (Ok(progress), Ok(p)) => progress@ == p,
        (Err(e), Err(message)) => e.says(message),
        _ => false,
    }
}

/// Reads the sheets of an XLSX workbook.
pub struct XlsxReader {
    shared_strings: Vec<String>,
    sheets: Vec<XlsxSheetInfo>,
    current_sheet_index: i64,
    source: Option<XmlSource>,
    scan: RowScanner,
    pub row_count: usize,
    pub actual_sheet_name: String,
    pub results_count: usize,
    pub xf_id_to_num_fmt_id: Vec<u16>,
    pub custom_date_formats: HashSet<u16>,
    /// Whether the workbook counts its dates from 1904.
    pub uses_1904_date_system: bool,
}

impl View for XlsxReader {
    type V = XlsxBookState;

    closed spec fn view(&self) -> XlsxBookState {
        XlsxBookState {
            shared: crate::biff12::texts(self.shared_strings@),
            sheets: placed_sheets(self.sheets@),
            current: self.current_sheet_index as int,
            events: match self.source {
                Some(source) => Some(crate::xml_events::events_left(source)),
                None => None,
            },
            scan: self.scan@,
            rows: self.row_count as int,
            name: self.actual_sheet_name@,
            results: self.results_count as int,
            formats: self.xf_id_to_num_fmt_id@,
            date_formats: self.custom_date_formats@,
            uses_1904: self.uses_1904_date_system,
        }
    }
}

/// The state of a reader that has read nothing.
pub open spec fn fresh_state() -> XlsxBookState {
    XlsxBookState {
        shared: Seq::empty(),
        sheets: Seq::empty(),
        current: -1,
        events: None,
        scan: RowState::fresh(0),
        rows: 0,
        name: Seq::empty(),
        results: 0,
        formats: Seq::empty(),
        date_formats: Set::empty(),
        uses_1904: false,
    }
}

impl XlsxBookState {
    pub open spec fn info(self) -> BookInfo {
        BookInfo {
            shared: self.shared,
            formats: self.formats,
            date_formats: self.date_formats,
        }
    }

    /// The index of the first sheet with a name, from `i` on.
    pub open spec fn sheet_named(self, name: Seq<char>, i: int) -> Option<int>
        decreases self.sheets.len() - i,
    {
        if i >= self.sheets.len() {
            None
        } else if self.sheets[i].name == name {
            Some(i)
        } else {
            self.sheet_named(name, i + 1)
        }
    }

    /// The text of the number that reading has stopped at.
    pub open spec fn number_text(self) -> Option<Seq<char>> {
        match self.scan.cell {
            Some(cell) => if cell.in_value {
                Some(cell.text)
            } else {
                None
            },
            None => None,
        }
    }

    /// The reader at the start of a sheet.
    pub open spec fn begun(
        self,
        index: int,
        events: Seq<Result<XmlItem, Seq<char>>>,
    ) -> XlsxBookState {
        XlsxBookState {
            events: Some(events),
            current: index,
            scan: RowState::fresh(0),
            rows: 0,
            ..self
        }
    }

    /// What reading on from a row in this state leads to.
    pub open spec fn read_on(self, scan: RowState) -> (XlsxBookState, Result<Progress, Seq<char>>) {
        let (next, left, signal) = scan.run(self.events->0, self.shared);
        let moved = XlsxBookState { events: Some(left), scan: next, ..self };
        match signal {
            Signal::Row => (XlsxBookState { rows: self.rows + 1, ..moved }, Ok(Progress::Row)),
            Signal::Number => (moved, Ok(Progress::Number((next.cell->0).text))),
            Signal::Fault(message) => (moved, Err(message)),
            _ => (moved, Ok(Progress::End)),
        }
    }

    /// What beginning the next row leads to.
    pub open spec fn advanced(self) -> (XlsxBookState, Result<Progress, Seq<char>>) {
        if self.current == -1 && self.sheets.len() == 0 {
            (self, Ok(Progress::End))
        } else {
            let fresh = RowState::fresh(self.scan.fields);
            match self.events {
                None => (
                    XlsxBookState { scan: fresh, ..self },
                    Err("reader is not open"@),
                ),
                Some(_) => self.read_on(fresh),
            }
        }
    }

    /// What the double that the number's text stands for leads to.
    pub open spec fn resumed(self, number: Option<u64>) -> (
        XlsxBookState,
        Result<Progress, Seq<char>>,
    ) {
        let (next, signal) = self.scan.with_number(number, self.info());
        match signal {
            Signal::Fault(message) => (XlsxBookState { scan: next, ..self }, Err(message)),
            _ => self.read_on(next),
        }
    }
}

/// The text of an optional part, read as UTF-8.
pub open spec fn part_text(part: Option<Seq<u8>>) -> Seq<char> {
    match part {
        Some(bytes) => crate::text::bytes_text(bytes),
        None => Seq::empty(),
    }
}

/// The relationships that an optional part states.
pub open spec fn part_relationships(part: Option<Seq<u8>>) -> Map<Seq<char>, Seq<char>> {
    match part {
        Some(bytes) => crate::relationships::relationships(crate::text::bytes_text(bytes)),
        None => Map::empty(),
    }
}

/// The bytes of an optional part.
pub open spec fn part_bytes(part: Option<&[u8]>) -> Option<Seq<u8>> {
    match part {
        Some(bytes) => Some(bytes@),
        None => None,
    }
}

impl XlsxReader {
    pub fn new() -> (r: Self)
        ensures
            r@ == fresh_state(),
    {
        broadcast use vstd::std_specs::hash::group_hash_axioms;

        let r = XlsxReader {
            shared_strings: Vec::new(),
            sheets: Vec::new(),
            current_sheet_index: -1,
            source: None,
            scan: RowScanner::new(),
            row_count: 0,
            actual_sheet_name: String::new(),
            results_count: 0,
            xf_id_to_num_fmt_id: Vec::new(),
            custom_date_formats: HashSet::new(),
            uses_1904_date_system: false,
        };
        assert(r@.shared =~= Seq::<Seq<char>>::empty());
        assert(r@.sheets =~= Seq::<PlacedSheet>::empty());
        assert(r@.name =~= Seq::<char>::empty());
        r
    }

    /// Forgets the workbook read before.
    pub fn reset(&mut self)
        ensures
            final(self)@ == fresh_state(),
    {
        *self = XlsxReader::new();
    }

    /// Takes the date system and the sheets from `xl/workbook.xml`, and the places
    /// of the sheets from its relationships.
    pub fn load_workbook(&mut self, part: &[u8], rels: Option<&[u8]>)
        ensures
            final(self)@ == (XlsxBookState {
                uses_1904: crate::xml_documents::date_system(
                    crate::xml_documents::text_events(crate::text::bytes_text(part@)),
                ),
                sheets: old(self)@.sheets + placed(
                    crate::xml_documents::sheets_declared(
                        crate::xml_documents::text_events(crate::text::bytes_text(part@)),
                        Seq::empty(),
                    ),
                    part_relationships(part_bytes(rels)),
                ),
                ..old(self)@
            }),
            forall|pieces: Seq<crate::markup::Piece>|
                #![trigger crate::markup::is_document(pieces)]
                crate::markup::is_document(pieces) && part@ == vstd::utf8::encode_utf8(
                    crate::markup::written(pieces),
                ) ==> final(self)@.sheets == old(self)@.sheets + placed(
                    crate::xml_documents::sheets_declared(
                        crate::markup::items(pieces),
                        Seq::empty(),
                    ),
                    part_relationships(part_bytes(rels)),
                ),
    {
        let map = match rels {
            Some(bytes) => parse_relationships(text_of_bytes(bytes).as_str()),
            None => RelationshipMap::new(),
        };
        let xml = text_of_bytes(part);
        assert forall|pieces: Seq<crate::markup::Piece>|
            #![trigger crate::markup::is_document(pieces)]
            crate::markup::is_document(pieces) && part@ == vstd::utf8::encode_utf8(
                crate::markup::written(pieces),
            ) implies xml@ == crate::markup::written(pieces) by {
            crate::text::lemma_bytes_text(crate::markup::written(pieces));
        }
        self.uses_1904_date_system = uses_1904_date_system(xml.as_str());
        let entries = parse_sheet_entries(xml.as_str());
        let ghost declared = crate::xml_documents::named_sheets(entries@);
        let ghost before = self@;
        let mut i: usize = 0;
        assert(before.sheets + placed(declared.take(0), map@) =~= before.sheets);
        while i < entries.len()
            invariant
                i <= entries@.len(),
                declared == crate::xml_documents::named_sheets(entries@),
                map@ == part_relationships(part_bytes(rels)),
                self@ == (XlsxBookState {
                    sheets: before.sheets + placed(declared.take(i as int), map@),
                    ..before
                }),
            decreases entries.len() - i,
        {
            let ghost known = self@.sheets;
            let path = match map.get(entries[i].r_id.as_str()) {
                Some(target) => resolve_part(target),
                None => {
                    proof {
                        reveal_strlit("");
                    }
                    assert(""@ =~= Seq::<char>::empty());
                    resolve_part("")
                },
            };
            let name = entries[i].name.clone();
            let sheet_id = entries[i].sheet_id.clone();
            let r_id = entries[i].r_id.clone();
            self.sheets.push(XlsxSheetInfo { name, sheet_id, r_id, path });
            proof {
                let sheet = PlacedSheet {
                    name: name@,
                    sheet_id: sheet_id@,
                    r_id: r_id@,
                    path: path@,
                };
                assert(self@.sheets =~= known.push(sheet));
                assert(placed(declared.take(i as int + 1), map@) =~= placed(
                    declared.take(i as int),
                    map@,
                ).push(sheet));
                assert(self@.sheets =~= before.sheets + placed(declared.take(i as int + 1), map@));
            }
            i += 1;
        }
        assert(declared.take(declared.len() as int) =~= declared);
    }

    /// Takes the shared strings from `xl/sharedStrings.xml`.
    pub fn load_shared_strings(&mut self, part: &[u8])
        ensures
            final(self)@ == (XlsxBookState {
                shared: crate::xml_documents::shared_strings_in(crate::text::bytes_text(part@)),
                ..old(self)@
            }),
            forall|pieces: Seq<crate::markup::Piece>|
                #![trigger crate::markup::is_document(pieces)]
                crate::markup::is_document(pieces) && part@ == vstd::utf8::encode_utf8(
                    crate::markup::written(pieces),
                ) ==> final(self)@.shared == crate::xml_documents::shared_strings_of(
                    crate::markup::items(pieces),
                ),
    {
        let xml = text_of_bytes(part);
        assert forall|pieces: Seq<crate::markup::Piece>|
            #![trigger crate::markup::is_document(pieces)]
            crate::markup::is_document(pieces) && part@ == vstd::utf8::encode_utf8(
                crate::markup::written(pieces),
            ) implies xml@ == crate::markup::written(pieces) by {
            crate::text::lemma_bytes_text(crate::markup::written(pieces));
        }
        self.shared_strings = parse_shared_strings_xml(xml.as_str());
    }

    /// Takes the number formats of the cell styles from `xl/styles.xml`.
    pub fn load_styles(&mut self, part: &[u8])
        ensures
            ({
                let styles = crate::xml_documents::styles_in(crate::text::bytes_text(part@));
                final(self)@ == (XlsxBookState {
                    formats: styles.formats,
                    date_formats: styles.date_formats,
                    ..old(self)@
                })
            }),
            forall|pieces: Seq<crate::markup::Piece>|
                #![trigger crate::markup::is_document(pieces)]
                crate::markup::is_document(pieces) && part@ == vstd::utf8::encode_utf8(
                    crate::markup::written(pieces),
                ) ==> {
                    let styles = crate::xml_documents::no_styles().run(
                        crate::markup::items(pieces),
                    );
                    final(self)@.formats == styles.formats && final(self)@.date_formats
                        == styles.date_formats
                },
    {
        let xml = text_of_bytes(part);
        assert forall|pieces: Seq<crate::markup::Piece>|
            #![trigger crate::markup::is_document(pieces)]
            crate::markup::is_document(pieces) && part@ == vstd::utf8::encode_utf8(
                crate::markup::written(pieces),
            ) implies xml@ == crate::markup::written(pieces) by {
            crate::text::lemma_bytes_text(crate::markup::written(pieces));
        }
        let (formats, date_formats) = parse_styles(xml.as_str());
        self.xf_id_to_num_fmt_id = formats;
        self.custom_date_formats = date_formats;
    }

    /// Ends the loading of a workbook: its sheets can now be selected.
    pub fn finish_loading(&mut self)
        ensures
            final(self)@ == (XlsxBookState {
                results: old(self)@.sheets.len() as int,
                current: -1,
                ..old(self)@
            }),
    {
        self.results_count = self.sheets.len();
        self.current_sheet_index = -1;
    }

    /// The names of the sheets.
    pub fn sheet_names(&self) -> (names: Vec<String>)
        ensures
            crate::biff12::texts(names@) == Seq::new(
                self@.sheets.len(),
                |i: int| self@.sheets[i].name,
            ),
    {
        let mut names: Vec<String> = Vec::new();
        let mut i: usize = 0;
        while i < self.sheets.len()
            invariant
                i <= self.sheets@.len(),
                names@.len() == i,
                forall|j: int| 0 <= j < i ==> (#[trigger] names@[j])@ == self.sheets@[j].name@,
            decreases self.sheets.len() - i,
        {
            names.push(self.sheets[i].name.clone());
            i += 1;
        }
        assert(crate::biff12::texts(names@) =~= Seq::new(
            self@.sheets.len(),
            |i: int| self@.sheets[i].name,
        ));
        names
    }

    /// The index of the first sheet with a name.
    pub fn find_sheet(&self, name: &str) -> (r: SpreadsheetResult<usize>)
        ensures
            match r {
                Ok(index) => self@.sheet_named(name@, 0) == Some(index as int) && index
                    < self@.sheets.len(),
                Err(e) => self@.sheet_named(name@, 0) is None && e.misses(name@),
            },
    {
        let mut i: usize = 0;
        while i < self.sheets.len()
            invariant
                i <= self.sheets@.len(),
                self@.sheet_named(name@, 0) == self@.sheet_named(name@, i as int),
            decreases self.sheets.len() - i,
        {
            if eq_str(self.sheets[i].name.as_str(), name) {
                return Ok(i);
            }
            i += 1;
        }
        Err(SpreadsheetError::SheetNotFound(name.to_owned()))
    }

    /// The path of the part of the first sheet with a name, for reading it cell by
    /// cell.
    pub fn cell_path(&self, name: &str) -> (r: SpreadsheetResult<String>)
        ensures
            match r {
                Ok(path) => self@.sheet_named(name@, 0) matches Some(i) && path@
                    == self@.sheets[i].path,
                Err(e) => self@.sheet_named(name@, 0) is None && e.misses(name@),
            },
    {
        match self.find_sheet(name) {
            Ok(index) => Ok(self.sheets[index].path.clone()),
            Err(e) => Err(e),
        }
    }

    /// The sheet that has to be begun before a row can be read, if any.
    pub fn wanted_sheet(&self) -> (r: Option<usize>)
        ensures
            r == if self@.current == -1 && self@.sheets.len() > 0 {
                Some(0usize)
            } else {
                None
            },
    {
        if self.current_sheet_index == -1 && self.sheets.len() > 0 {
            Some(0)
        } else {
            None
        }
    }

    /// Takes the name of the sheet to be read next and gives the path of its part.
    pub fn prepare_sheet(&mut self, index: usize) -> (r: SpreadsheetResult<String>)
        ensures
            if index >= old(self)@.sheets.len() {
                final(self)@ == old(self)@ && crate::error::fails(r, "sheet index out of range"@)
            } else {
                &&& r matches Ok(path) && path@ == old(self)@.sheets[index as int].path
                &&& final(self)@ == (XlsxBookState {
                    name: old(self)@.sheets[index as int].name,
                    ..old(self)@
                })
            },
    {
        if index >= self.sheets.len() {
            return Err(invalid("sheet index out of range"));
        }
        self.actual_sheet_name = self.sheets[index].name.clone();
        Ok(self.sheets[index].path.clone())
    }

    /// Begins a sheet, whose part holds these bytes. A part made of plain markup is
    /// read by the events of its pieces.
    pub fn begin_sheet(&mut self, index: usize, bytes: Vec<u8>)
        requires
            index <= i64::MAX,
        ensures
            final(self)@ == old(self)@.begun(
                index as int,
                crate::xml_events::document_events(bytes@),
            ),
            forall|pieces: Seq<crate::markup::Piece>|
                #![trigger crate::markup::is_document(pieces)]
                crate::markup::is_document(pieces) && bytes@ == vstd::utf8::encode_utf8(
                    crate::markup::written(pieces),
                ) ==> final(self)@ == old(self)@.begun(
                    index as int,
                    crate::markup::items(pieces),
                ),
    {
        self.source = Some(open_xml(bytes));
        self.current_sheet_index = index as i64;
        self.scan = RowScanner::new();
        self.row_count = 0;
    }

    /// Reads on in a row.
    fn read_on(&mut self) -> (r: SpreadsheetResult<RowProgress>)
        requires
            old(self)@.events is Some,
            old(self)@.rows < usize::MAX,
        ensures
            final(self)@ == old(self)@.read_on(old(self)@.scan).0,
            comes_to(r, old(self)@.read_on(old(self)@.scan).1),
    {
        let ghost before = self@;
        match self.source.take() {
            None => Ok(RowProgress::End),
            Some(taken) => {
                let mut source = taken;
                let ghost goal = before.scan.run(before.events->0, before.shared);
                assert(before.events == Some(crate::xml_events::events_left(source)));
                let mut signal = RowSignal::More;
                loop
                    invariant_except_break
                        signal is More,
                        goal == self.scan@.run(
                            crate::xml_events::events_left(source),
                            before.shared,
                        ),
                    invariant
                        before.rows < usize::MAX,
                        before == old(self)@,
                        goal == before.scan.run(before.events->0, before.shared),
                        self.source is None,
                        self@ == (XlsxBookState { events: None, scan: self.scan@, ..before }),
                    ensures
                        goal == (self.scan@, crate::xml_events::events_left(source), signal@),
                        !(signal is More),
                        signal is Number ==> self.scan@.cell is Some,
                    decreases crate::xml_events::events_left(source).len(),
                {
                    signal = next_signal(
                        &mut self.scan,
                        &mut source,
                        self.shared_strings.as_slice(),
                    );
                    if !matches!(signal, RowSignal::More) {
                        break;
                    }
                }
                self.source = Some(source);
                match signal {
                    RowSignal::Row => {
                        self.row_count = self.row_count + 1;
                        Ok(RowProgress::Row)
                    },
                    RowSignal::Number => match &self.scan.cell {
                        Some(cell) => Ok(RowProgress::Number(cell.text.clone())),
                        None => Ok(RowProgress::End),
                    },
                    RowSignal::Fault(message) => Err(SpreadsheetError::InvalidFormat(message)),
                    _ => Ok(RowProgress::End),
                }
            },
        }
    }
}

/// Takes the next outcome of a parser.
fn next_signal(scan: &mut RowScanner, source: &mut XmlSource, shared: &[String]) -> (signal:
    RowSignal)
    ensures
        ({
            let events = crate::xml_events::events_left(*old(source));
            &&& (final(scan)@, signal@) == old(scan)@.outcome_step(
                events,
                crate::biff12::texts(shared@),
            )
            &&& crate::xml_events::events_left(*final(source)) == if events.len() == 0 {
                events
            } else {
                events.skip(1)
            }
            &&& signal is More ==> events.len() > 0
            &&& signal is Number ==> final(scan)@.cell is Some
        }),
{
    match next_event(source) {
        Err(fault) => {
            let kind = match &scan.cell {
                None => "XLSX XML: ",
                Some(_) => "XLSX cell XML: ",
            };
            RowSignal::Fault(fault_text(kind, fault.as_str()))
        },
        Ok(event) => {
            if event.kind == XmlKind::Eof {
                match &scan.cell {
                    None => RowSignal::End,
                    Some(_) => RowSignal::Fault("unterminated XLSX cell".to_owned()),
                }
            } else {
                scan.take(&event, shared)
            }
        },
    }
}

impl XlsxReader {
    /// Begins the next row of the sheet and reads on in it.
    pub fn read(&mut self) -> (r: SpreadsheetResult<RowProgress>)
        requires
            old(self)@.rows < usize::MAX,
        ensures
            final(self)@ == old(self)@.advanced().0,
            comes_to(r, old(self)@.advanced().1),
    {
        if self.current_sheet_index == -1 && self.sheets.len() == 0 {
            return Ok(RowProgress::End);
        }
        self.scan.restart();
        match &self.source {
            None => Err(invalid("reader is not open")),
            Some(_) => self.read_on(),
        }
    }

    /// Reads on in a row with the bits of the double that the number's text stands
    /// for, `None` where it stands for none.
    pub fn resume(&mut self, number: Option<u64>) -> (r: SpreadsheetResult<RowProgress>)
        requires
            old(self)@.rows < usize::MAX,
            old(self)@.events is Some,
            old(self)@.number_text() is Some,
        ensures
            final(self)@ == old(self)@.resumed(number).0,
            comes_to(r, old(self)@.resumed(number).1),
    {
        let ghost before = self@;
        match self.scan.take_number(
            number,
            self.xf_id_to_num_fmt_id.as_slice(),
            &self.custom_date_formats,
        ) {
            RowSignal::Fault(message) => Err(SpreadsheetError::InvalidFormat(message)),
            _ => self.read_on(),
        }
    }

    /// Whether reading has stopped at a number.
    pub fn awaits_number(&self) -> (b: bool)
        ensures
            b == (self@.events is Some && self@.number_text() is Some),
    {
        match (&self.source, &self.scan.cell) {
            (Some(_), Some(cell)) => cell.in_value,
            _ => false,
        }
    }

    /// The number of columns that cells were read for.
    pub fn field_count(&self) -> (n: usize)
        ensures
            n == self@.scan.fields,
    {
        self.scan.fields
    }

    /// The value at a column of the row read last.
    pub fn get_value(&self, i: usize) -> (v: CellValue)
        ensures
            v@ == if i < self@.scan.row.len() {
                self@.scan.row[i as int]
            } else {
                crate::xlsb_reader::bare(crate::formats::Plain::Empty)
            },
    {
        if i < self.scan.row.len() {
            copy_cell(&self.scan.row[i])
        } else {
            CellValue::Empty
        }
    }

    /// The row read last.
    pub fn current_row(&self) -> (row: &[CellValue])
        ensures
            crate::formats::row_cells(row@) == self@.scan.row,
    {
        self.scan.row.as_slice()
    }

    /// A reader of the cells of a sheet, whose part holds these bytes. A part made of
    /// plain markup is read by the events of its pieces.
    pub fn cell_reader<'a>(&'a self, bytes: Vec<u8>) -> (r: XlsxCellReader<'a>)
        ensures
            r@.events == crate::xml_events::document_events(bytes@),
            r@.info == self@.info(),
            r@.scan.row == 0,
            r@.scan.column == 0,
            r@.scan.phase == CellPhase::Outside,
            forall|pieces: Seq<crate::markup::Piece>|
                #![trigger crate::markup::is_document(pieces)]
                crate::markup::is_document(pieces) && bytes@ == vstd::utf8::encode_utf8(
                    crate::markup::written(pieces),
                ) ==> r@.events == crate::markup::items(pieces),
    {
        XlsxCellReader::new(
            bytes,
            self.shared_strings.as_slice(),
            self.xf_id_to_num_fmt_id.as_slice(),
            &self.custom_date_formats,
        )
    }

    /// Leaves the sheet. The next row is read from the first one.
    pub fn close(&mut self)
        ensures
            final(self)@ == (XlsxBookState { events: None, current: -1, ..old(self)@ }),
    {
        self.source = None;
        self.current_sheet_index = -1;
    }
}

impl Default for XlsxReader {
    fn default() -> (r: Self)
        ensures
            r@ == fresh_state(),
    {
        XlsxReader::new()
    }
}

} // verus!
