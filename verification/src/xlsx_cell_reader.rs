//! The cells of an XLSX worksheet, one by one.
//!
//! As with rows, reading stops at the text of a number and goes on with the double
//! that it stands for.

use vstd::prelude::*;
use crate::error::{SpreadsheetError, SpreadsheetResult};
use crate::formats::{CellRef, CellValueRef};
use crate::text::utf8_text;
use crate::xlsb_reader::BookInfo;
use crate::xlsx_rows::fault_text;
use crate::xlsx_scan::{
    parse_cell_attributes, parse_number, parse_row_number, parse_stored, Parsed, ParsedCellValue,
    XlsxCellType,
};
use crate::xml_events::{
    decode_xml_reference, next_event, open_xml, XmlEvent, XmlItem, XmlKind, XmlSource,
};
use std::collections::HashSet;

verus! {

/// Where the next event is read: between cells, in a cell, in its value, in its
/// inline string, in a text of that string, or behind a text tag directly in the
/// cell.
#[derive(Debug, Clone, Copy, PartialEq, Eq, Structural)]
pub enum CellPhase {
    Outside,
    Cell,
    Value,
    Inline,
    InlineText,
    BareText,
}

/// A sheet that is being read cell by cell: the row and the column of the next
/// cell, where the next event is read, and the cell being read. The value of a
/// cell whose text is gathered in `scratch` is `Text`, whatever it holds.
pub struct ScanState {
    pub row: u32,
    pub column: u32,
    pub phase: CellPhase,
    pub cell_column: u32,
    pub cell_type: XlsxCellType,
    pub style: int,
    pub parsed: Parsed,
    pub gathered: bool,
    pub scratch: Seq<char>,
}

/// What an event leads to: reading on, a cell with its value or without one, the
/// end of the sheet, a number that has to be known, or a fault.
pub enum CellSignal {
    More,
    Cell,
    EmptyCell,
    End,
    Number,
    Fault(Seq<char>),
}

/// The number that follows, the largest one where there is none.
pub open spec fn following(n: u32) -> u32 {
    if n == u32::MAX {
        n
    } else {
        (n + 1) as u32
    }
}

fn follow(n: u32) -> (m: u32)
    ensures
        m == following(n),
{
    if n == u32::MAX {
        n
    } else {
        n + 1
    }
}

impl ScanState {
    /// The scan behind bytes of text.
    pub open spec fn with_bytes(self, bytes: Seq<u8>) -> (ScanState, CellSignal) {
        if vstd::utf8::valid_utf8(bytes) {
            (
                ScanState { scratch: self.scratch + vstd::utf8::decode_utf8(bytes), ..self },
                CellSignal::More,
            )
        } else {
            (self, CellSignal::Fault("invalid XLSX text: "@ + crate::text::utf8_fault(bytes)))
        }
    }

    /// The scan behind a reference.
    pub open spec fn with_reference(self, name: Seq<u8>) -> ScanState {
        ScanState { scratch: self.scratch + crate::xml_events::resolved(name), ..self }
    }

    /// The column that a cell stands in.
    pub open spec fn place(self, item: XmlItem) -> u32 {
        match crate::xlsx_scan::head_of(item).column {
            Some(column) => column,
            None => self.column,
        }
    }

    /// What an event between cells leads to.
    pub open spec fn outside_step(self, item: XmlItem) -> (ScanState, CellSignal) {
        if item.is_tag(XmlKind::Start, "row"@) {
            (
                match crate::xlsx_scan::row_number(item.attributes, 0) {
                    Some(row) => ScanState { row, ..self },
                    None => self,
                },
                CellSignal::More,
            )
        } else if item.is_tag(XmlKind::End, "row"@) {
            (ScanState { row: following(self.row), column: 0, ..self }, CellSignal::More)
        } else if item.is_tag(XmlKind::Start, "c"@) {
            let head = crate::xlsx_scan::head_of(item);
            (
                ScanState {
                    column: following(self.place(item)),
                    phase: CellPhase::Cell,
                    cell_column: self.place(item),
                    cell_type: head.cell_type,
                    style: head.style,
                    parsed: Parsed::Empty,
                    gathered: false,
                    scratch: Seq::empty(),
                    ..self
                },
                CellSignal::More,
            )
        } else if item.is_tag(XmlKind::Empty, "c"@) {
            (
                ScanState {
                    column: following(self.place(item)),
                    cell_column: self.place(item),
                    ..self
                },
                CellSignal::EmptyCell,
            )
        } else if item.is_tag(XmlKind::End, "sheetData"@) {
            (self, CellSignal::End)
        } else {
            (self, CellSignal::More)
        }
    }

    /// What an event in a cell leads to.
    pub open spec fn cell_step(self, item: XmlItem) -> (ScanState, CellSignal) {
        if item.is_tag(XmlKind::Start, "v"@) {
            (
                ScanState { phase: CellPhase::Value, scratch: Seq::empty(), ..self },
                CellSignal::More,
            )
        } else if item.is_tag(XmlKind::Start, "is"@) {
            (ScanState { phase: CellPhase::Inline, ..self }, CellSignal::More)
        } else if item.is_tag(XmlKind::Start, "t"@) {
            if self.cell_type == XlsxCellType::InlineString {
                (ScanState { phase: CellPhase::BareText, ..self }, CellSignal::More)
            } else {
                (self, CellSignal::More)
            }
        } else if item.is_tag(XmlKind::End, "c"@) {
            (ScanState { phase: CellPhase::Outside, ..self }, CellSignal::Cell)
        } else if item.is_tag(XmlKind::Empty, "c"@) {
            (ScanState { phase: CellPhase::Outside, ..self }, CellSignal::EmptyCell)
        } else {
            (self, CellSignal::More)
        }
    }

    /// What an event in a value leads to.
    pub open spec fn value_step(self, item: XmlItem) -> (ScanState, CellSignal) {
        if item.kind == XmlKind::Text || item.kind == XmlKind::CData {
            self.with_bytes(item.content)
        } else if item.kind == XmlKind::Reference {
            (self.with_reference(item.content), CellSignal::More)
        } else if item.is_tag(XmlKind::End, "v"@) {
            match crate::xlsx_scan::stored_value(self.scratch, self.cell_type) {
                Some(parsed) => (
                    ScanState { phase: CellPhase::Cell, parsed, gathered: false, ..self },
                    CellSignal::More,
                ),
                None => (self, CellSignal::Number),
            }
        } else {
            (self, CellSignal::More)
        }
    }

    /// What an event in an inline string leads to.
    pub open spec fn inline_step(self, item: XmlItem) -> (ScanState, CellSignal) {
        let in_text = self.phase == CellPhase::InlineText;
        if item.is_tag(XmlKind::Start, "t"@) {
            (ScanState { phase: CellPhase::InlineText, ..self }, CellSignal::More)
        } else if item.is_tag(XmlKind::End, "t"@) {
            (ScanState { phase: CellPhase::Inline, ..self }, CellSignal::More)
        } else if in_text && (item.kind == XmlKind::Text || item.kind == XmlKind::CData) {
            self.with_bytes(item.content)
        } else if in_text && item.kind == XmlKind::Reference {
            (self.with_reference(item.content), CellSignal::More)
        } else if item.is_tag(XmlKind::End, "is"@) {
            (ScanState { phase: CellPhase::Cell, gathered: true, ..self }, CellSignal::More)
        } else {
            (self, CellSignal::More)
        }
    }

    /// What an event behind a text tag in the cell leads to. Only a text counts.
    pub open spec fn bare_step(self, item: XmlItem) -> (ScanState, CellSignal) {
        let back = ScanState { phase: CellPhase::Cell, ..self };
        if item.kind == XmlKind::Text {
            let (next, signal) = back.with_bytes(item.content);
            (
                if signal is More {
                    ScanState { gathered: true, ..next }
                } else {
                    next
                },
                signal,
            )
        } else {
            (back, CellSignal::More)
        }
    }

    /// What an event leads to.
    pub open spec fn step(self, item: XmlItem) -> (ScanState, CellSignal) {
        match self.phase {
            CellPhase::Outside => self.outside_step(item),
            CellPhase::Cell => self.cell_step(item),
            CellPhase::Value => self.value_step(item),
            CellPhase::Inline => self.inline_step(item),
            CellPhase::InlineText => self.inline_step(item),
            CellPhase::BareText => self.bare_step(item),
        }
    }

    /// What the end of the document leads to.
    pub open spec fn end_step(self) -> (ScanState, CellSignal) {
        match self.phase {
            CellPhase::Outside => (self, CellSignal::End),
            CellPhase::Cell => (self, CellSignal::Fault("unterminated XLSX cell"@)),
            CellPhase::Value => (self, CellSignal::Fault("unterminated XLSX value"@)),
            CellPhase::Inline => (self, CellSignal::Fault("unterminated inline string"@)),
            CellPhase::InlineText => (self, CellSignal::Fault("unterminated inline string"@)),
            CellPhase::BareText => (ScanState { phase: CellPhase::Cell, ..self }, CellSignal::More),
        }
    }

    /// What a fault of the parser leads to.
    pub open spec fn fault_step(self, fault: Seq<char>) -> (ScanState, CellSignal) {
        match self.phase {
            CellPhase::Outside => (self, CellSignal::Fault("XLSX XML: "@ + fault)),
            CellPhase::Cell => (self, CellSignal::Fault("XLSX cell XML: "@ + fault)),
            CellPhase::Value => (self, CellSignal::Fault("XLSX value XML: "@ + fault)),
            CellPhase::Inline => (self, CellSignal::Fault("XLSX inline XML: "@ + fault)),
            CellPhase::InlineText => (self, CellSignal::Fault("XLSX inline XML: "@ + fault)),
            CellPhase::BareText => (ScanState { phase: CellPhase::Cell, ..self }, CellSignal::More),
        }
    }

    /// What the next outcome leads to.
    pub open spec fn outcome_step(self, events: Seq<Result<XmlItem, Seq<char>>>) -> (
        ScanState,
        CellSignal,
    ) {
        if events.len() == 0 {
            self.end_step()
        } else {
            match events[0] {
                Err(fault) => self.fault_step(fault),
                Ok(item) => self.step(item),
            }
        }
    }

    /// What reading on leads to: the scan, the outcomes left, and the signal that
    /// stopped it.
    pub open spec fn run(self, events: Seq<Result<XmlItem, Seq<char>>>) -> (
        ScanState,
        Seq<Result<XmlItem, Seq<char>>>,
        CellSignal,
    )
        decreases
            events.len(),
            if self.phase == CellPhase::BareText {
                1int
            } else {
                0
            },
    {
        let (next, signal) = self.outcome_step(events);
        let left = if events.len() == 0 {
            events
        } else {
            events.skip(1)
        };
        if signal is More {
            next.run(left)
        } else {
            (next, left, signal)
        }
    }

    /// What the double that a number's text stands for leads to. The text of a
    /// value that is no number is the value.
    pub open spec fn with_number(self, number: Option<u64>, info: BookInfo) -> (
        ScanState,
        CellSignal,
    ) {
        match crate::xlsx_scan::numeric_value(
            self.scratch,
            number,
            self.cell_type,
            self.style,
            info,
        ) {
            Ok(Parsed::Text(text)) => (
                ScanState { phase: CellPhase::Cell, gathered: true, scratch: text, ..self },
                CellSignal::More,
            ),
            Ok(parsed) => (
                ScanState { phase: CellPhase::Cell, gathered: false, parsed, ..self },
                CellSignal::More,
            ),
            Err(fault) => (self, CellSignal::Fault(fault)),
        }
    }

    /// The value of the cell that has been read.
    pub open spec fn value(self, shared: Seq<Seq<char>>) -> crate::formats::Plain {
        if self.gathered {
            crate::formats::Plain::Text(self.scratch)
        } else {
            self.parsed.value(shared)
        }
    }
}

/// Reads the cells of a sheet in the order in which they stand.
pub struct XlsxCellReader<'a> {
    source: XmlSource,
    shared_strings: &'a [String],
    formats: &'a [u16],
    custom_date_formats: &'a HashSet<u16>,
    row: u32,
    column: u32,
    phase: CellPhase,
    cell_column: u32,
    cell_type: XlsxCellType,
    style: usize,
    parsed: ParsedCellValue,
    gathered: bool,
    scratch: String,
}

/// What a cell reader stands for: the outcomes that its parser has still to give,
/// what its cells point at, and how far it has come.
pub struct CellsLeft {
    pub events: Seq<Result<XmlItem, Seq<char>>>,
    pub info: BookInfo,
    pub scan: ScanState,
}

impl<'a> View for XlsxCellReader<'a> {
    type V = CellsLeft;

    closed spec fn view(&self) -> CellsLeft {
        CellsLeft {
            events: crate::xml_events::events_left(self.source),
            info: BookInfo {
                shared: crate::biff12::texts(self.shared_strings@),
                formats: self.formats@,
                date_formats: self.custom_date_formats@,
            },
            scan: ScanState {
                row: self.row,
                column: self.column,
                phase: self.phase,
                cell_column: self.cell_column,
                cell_type: self.cell_type,
                style: self.style as int,
                parsed: self.parsed@,
                gathered: self.gathered,
                scratch: self.scratch@,
            },
        }
    }
}

/// How far reading cells has come: to a cell, to the end of the sheet, or to a
/// number, whose text it gives.
#[derive(Debug)]
pub enum CellProgress<'b> {
    Cell(CellRef<'b>),
    End,
    Number(&'b str),
}

/// What reading on leads to.
pub enum CellOutcome {
    Cell(crate::xlsb_reader::PlacedCell),
    End,
    Number(Seq<char>),
    Fault(Seq<char>),
}

impl CellsLeft {
    /// What reading on leads to.
    pub open spec fn read_on(self) -> (CellsLeft, CellOutcome) {
        let (scan, events, signal) = self.scan.run(self.events);
        let moved = CellsLeft { scan, events, ..self };
        match signal {
            CellSignal::Cell => (
                moved,
                CellOutcome::Cell(
                    crate::xlsb_reader::PlacedCell {
                        row: scan.row,
                        column: scan.cell_column,
                        value: scan.value(self.info.shared),
                    },
                ),
            ),
            CellSignal::EmptyCell => (
                moved,
                CellOutcome::Cell(
                    crate::xlsb_reader::PlacedCell {
                        row: scan.row,
                        column: scan.cell_column,
                        value: crate::formats::Plain::Empty,
                    },
                ),
            ),
            CellSignal::Number => (moved, CellOutcome::Number(scan.scratch)),
            CellSignal::Fault(message) => (moved, CellOutcome::Fault(message)),
            _ => (moved, CellOutcome::End),
        }
    }

    /// What reading the next cell leads to.
    pub open spec fn next(self) -> (CellsLeft, CellOutcome) {
        (CellsLeft {
            scan: ScanState { phase: CellPhase::Outside, ..self.scan },
            ..self
        }).read_on()
    }

    /// What the double that the number's text stands for leads to.
    pub open spec fn resumed(self, number: Option<u64>) -> (CellsLeft, CellOutcome) {
        let (scan, signal) = self.scan.with_number(number, self.info);
        match signal {
            CellSignal::Fault(message) => (
                CellsLeft { scan, ..self },
                CellOutcome::Fault(message),
            ),
            _ => (CellsLeft { scan, ..self }).read_on(),
        }
    }
}

/// The result of reading is the one expected.
pub open spec fn gives(r: SpreadsheetResult<CellProgress<'_>>, expected: CellOutcome) -> bool {
    match (r, expected) {
        (Ok(CellProgress::Cell(cell)), CellOutcome::Cell(placed)) => crate::xlsb_reader::placed(
            cell,
        ) == placed,
        (Ok(CellProgress::End), CellOutcome::End) => true,
        (Ok(CellProgress::Number(text)), CellOutcome::Number(expected)) => text@ == expected,
        (Err(e), CellOutcome::Fault(message)) => e.says(message),
        _ => false,
    }
}

/// What an event leads to.
enum ScanSignal {
    More,
    Cell,
    EmptyCell,
    End,
    Number,
    Fault(String),
}

impl View for ScanSignal {
    type V = CellSignal;

    closed spec fn view(&self) -> CellSignal {
        match *self {
            ScanSignal::More => CellSignal::More,
            ScanSignal::Cell => CellSignal::Cell,
            ScanSignal::EmptyCell => CellSignal::EmptyCell,
            ScanSignal::End => CellSignal::End,
            ScanSignal::Number => CellSignal::Number,
            ScanSignal::Fault(message) => CellSignal::Fault(message@),
        }
    }
}

impl<'a> XlsxCellReader<'a> {
    /// A reader of the cells of a sheet, whose part holds these bytes. A part made of
    /// plain markup is read by the events of its pieces.
    pub fn new(
        bytes: Vec<u8>,
        shared_strings: &'a [String],
        formats: &'a [u16],
        custom_date_formats: &'a HashSet<u16>,
    ) -> (r: Self)
        ensures
            r@.events == crate::xml_events::document_events(bytes@),
            r@.info == (BookInfo {
                shared: crate::biff12::texts(shared_strings@),
                formats: formats@,
                date_formats: custom_date_formats@,
            }),
            r@.scan.row == 0,
            r@.scan.column == 0,
            r@.scan.phase == CellPhase::Outside,
            forall|pieces: Seq<crate::markup::Piece>|
                #![trigger crate::markup::is_document(pieces)]
                crate::markup::is_document(pieces) && bytes@ == vstd::utf8::encode_utf8(
                    crate::markup::written(pieces),
                ) ==> r@.events == crate::markup::items(pieces),
    {
        XlsxCellReader {
            source: open_xml(bytes),
            shared_strings,
            formats,
            custom_date_formats,
            row: 0,
            column: 0,
            phase: CellPhase::Outside,
            cell_column: 0,
            cell_type: XlsxCellType::Number,
            style: 0,
            parsed: ParsedCellValue::Empty,
            gathered: false,
            scratch: String::new(),
        }
    }

    fn append_bytes(&mut self, bytes: &[u8]) -> (signal: ScanSignal)
        ensures
            final(self)@ == (CellsLeft {
                scan: old(self)@.scan.with_bytes(bytes@).0,
                ..old(self)@
            }),
            signal@ == old(self)@.scan.with_bytes(bytes@).1,
    {
        match utf8_text(bytes) {
            Ok(text) => {
                self.scratch.append(text.as_str());
                ScanSignal::More
            },
            Err(fault) => ScanSignal::Fault(fault_text("invalid XLSX text: ", fault.as_str())),
        }
    }

    fn take_outside(&mut self, event: &XmlEvent) -> (signal: ScanSignal)
        ensures
            final(self)@ == (CellsLeft {
                scan: old(self)@.scan.outside_step(event@).0,
                ..old(self)@
            }),
            signal@ == old(self)@.scan.outside_step(event@).1,
    {
        if event.tag_is(XmlKind::Start, "row") {
            match parse_row_number(event) {
                Some(row) => {
                    self.row = row;
                },
                None => {},
            }
        } else if event.tag_is(XmlKind::End, "row") {
            self.row = follow(self.row);
            self.column = 0;
        } else if event.tag_is(XmlKind::Start, "c") {
            let (column, cell_type, style) = parse_cell_attributes(event);
            let place: u32 = match column {
                Some(column) => column,
                None => self.column,
            };
            self.column = follow(place);
            self.phase = CellPhase::Cell;
            self.cell_column = place;
            self.cell_type = cell_type;
            self.style = style;
            self.parsed = ParsedCellValue::Empty;
            self.gathered = false;
            self.scratch = String::new();
            assert(self.scratch@ =~= Seq::<char>::empty());
        } else if event.tag_is(XmlKind::Empty, "c") {
            let (column, _, _) = parse_cell_attributes(event);
            let place: u32 = match column {
                Some(column) => column,
                None => self.column,
            };
            self.column = follow(place);
            self.cell_column = place;
            return ScanSignal::EmptyCell;
        } else if event.tag_is(XmlKind::End, "sheetData") {
            return ScanSignal::End;
        }
        ScanSignal::More
    }

    fn take_in_cell(&mut self, event: &XmlEvent) -> (signal: ScanSignal)
        ensures
            final(self)@ == (CellsLeft {
                scan: old(self)@.scan.cell_step(event@).0,
                ..old(self)@
            }),
            signal@ == old(self)@.scan.cell_step(event@).1,
    {
        if event.tag_is(XmlKind::Start, "v") {
            self.phase = CellPhase::Value;
            self.scratch = String::new();
            assert(self.scratch@ =~= Seq::<char>::empty());
        } else if event.tag_is(XmlKind::Start, "is") {
            self.phase = CellPhase::Inline;
        } else if event.tag_is(XmlKind::Start, "t") {
            if self.cell_type == XlsxCellType::InlineString {
                self.phase = CellPhase::BareText;
            }
        } else if event.tag_is(XmlKind::End, "c") {
            self.phase = CellPhase::Outside;
            return ScanSignal::Cell;
        } else if event.tag_is(XmlKind::Empty, "c") {
            self.phase = CellPhase::Outside;
            return ScanSignal::EmptyCell;
        }
        ScanSignal::More
    }

    fn take_in_value(&mut self, event: &XmlEvent) -> (signal: ScanSignal)
        ensures
            final(self)@ == (CellsLeft {
                scan: old(self)@.scan.value_step(event@).0,
                ..old(self)@
            }),
            signal@ == old(self)@.scan.value_step(event@).1,
    {
        if event.kind == XmlKind::Text || event.kind == XmlKind::CData {
            return self.append_bytes(event.content.as_slice());
        } else if event.kind == XmlKind::Reference {
            self.scratch.append(decode_xml_reference(event.content.as_slice()).as_str());
        } else if event.tag_is(XmlKind::End, "v") {
            match parse_stored(self.scratch.as_str(), self.cell_type) {
                Some(parsed) => {
                    self.parsed = parsed;
                    self.gathered = false;
                    self.phase = CellPhase::Cell;
                },
                None => return ScanSignal::Number,
            }
        }
        ScanSignal::More
    }

    fn take_inline(&mut self, event: &XmlEvent) -> (signal: ScanSignal)
        ensures
            final(self)@ == (CellsLeft {
                scan: old(self)@.scan.inline_step(event@).0,
                ..old(self)@
            }),
            signal@ == old(self)@.scan.inline_step(event@).1,
    {
        let in_text = self.phase == CellPhase::InlineText;
        if event.tag_is(XmlKind::Start, "t") {
            self.phase = CellPhase::InlineText;
        } else if event.tag_is(XmlKind::End, "t") {
            self.phase = CellPhase::Inline;
        } else if in_text && (event.kind == XmlKind::Text || event.kind == XmlKind::CData) {
            return self.append_bytes(event.content.as_slice());
        } else if in_text && event.kind == XmlKind::Reference {
            self.scratch.append(decode_xml_reference(event.content.as_slice()).as_str());
        } else if event.tag_is(XmlKind::End, "is") {
            self.phase = CellPhase::Cell;
            self.gathered = true;
        }
        ScanSignal::More
    }

    fn take_bare(&mut self, event: &XmlEvent) -> (signal: ScanSignal)
        ensures
            final(self)@ == (CellsLeft {
                scan: old(self)@.scan.bare_step(event@).0,
                ..old(self)@
            }),
            signal@ == old(self)@.scan.bare_step(event@).1,
    {
        self.phase = CellPhase::Cell;
        if event.kind == XmlKind::Text {
            let signal = self.append_bytes(event.content.as_slice());
            if let ScanSignal::More = signal {
                self.gathered = true;
            }
            return signal;
        }
        ScanSignal::More
    }

    fn take_end(&mut self) -> (signal: ScanSignal)
        ensures
            final(self)@ == (CellsLeft { scan: old(self)@.scan.end_step().0, ..old(self)@ }),
            signal@ == old(self)@.scan.end_step().1,
    {
        match self.phase {
            CellPhase::Outside => ScanSignal::End,
            CellPhase::Cell => ScanSignal::Fault("unterminated XLSX cell".to_owned()),
            CellPhase::Value => ScanSignal::Fault("unterminated XLSX value".to_owned()),
            CellPhase::BareText => {
                self.phase = CellPhase::Cell;
                ScanSignal::More
            },
            _ => ScanSignal::Fault("unterminated inline string".to_owned()),
        }
    }

    fn take_fault(&mut self, fault: &str) -> (signal: ScanSignal)
        ensures
            final(self)@ == (CellsLeft { scan: old(self)@.scan.fault_step(fault@).0, ..old(self)@ }),
            signal@ == old(self)@.scan.fault_step(fault@).1,
    {
        match self.phase {
            CellPhase::Outside => ScanSignal::Fault(fault_text("XLSX XML: ", fault)),
            CellPhase::Cell => ScanSignal::Fault(fault_text("XLSX cell XML: ", fault)),
            CellPhase::Value => ScanSignal::Fault(fault_text("XLSX value XML: ", fault)),
            CellPhase::BareText => {
                self.phase = CellPhase::Cell;
                ScanSignal::More
            },
            _ => ScanSignal::Fault(fault_text("XLSX inline XML: ", fault)),
        }
    }

    /// Takes the next outcome of the parser.
    fn take_outcome(&mut self) -> (signal: ScanSignal)
        ensures
            final(self)@ == (CellsLeft {
                scan: old(self)@.scan.outcome_step(old(self)@.events).0,
                events: if old(self)@.events.len() == 0 {
                    old(self)@.events
                } else {
                    old(self)@.events.skip(1)
                },
                ..old(self)@
            }),
            signal@ == old(self)@.scan.outcome_step(old(self)@.events).1,
    {
        match next_event(&mut self.source) {
            Err(fault) => self.take_fault(fault.as_str()),
            Ok(event) => {
                if event.kind == XmlKind::Eof {
                    self.take_end()
                } else {
                    match self.phase {
                        CellPhase::Outside => self.take_outside(&event),
                        CellPhase::Cell => self.take_in_cell(&event),
                        CellPhase::Value => self.take_in_value(&event),
                        CellPhase::BareText => self.take_bare(&event),
                        _ => self.take_inline(&event),
                    }
                }
            },
        }
    }

    fn read_on<'b>(&'b mut self) -> (r: SpreadsheetResult<CellProgress<'b>>)
        ensures
            final(self)@ == old(self)@.read_on().0,
            gives(r, old(self)@.read_on().1),
    {
        let mut signal = ScanSignal::More;
        let ghost goal = self@.scan.run(self@.events);
        loop
            invariant_except_break
                signal is More,
                goal == self@.scan.run(self@.events),
            invariant
                goal == old(self)@.scan.run(old(self)@.events),
                self@.info == old(self)@.info,
            ensures
                goal == (self@.scan, self@.events, signal@),
            decreases
                self@.events.len(),
                if self@.scan.phase == CellPhase::BareText {
                    1int
                } else {
                    0
                },
        {
            signal = self.take_outcome();
            if !matches!(signal, ScanSignal::More) {
                break;
            }
        }
        match signal {
            ScanSignal::Cell => {
                let value = if self.gathered {
                    CellValueRef::Text(self.scratch.as_str())
                } else {
                    self.parsed.value(self.shared_strings)
                };
                Ok(CellProgress::Cell(CellRef { row: self.row, column: self.cell_column, value }))
            },
            ScanSignal::EmptyCell => Ok(
                CellProgress::Cell(
                    CellRef { row: self.row, column: self.cell_column, value: CellValueRef::Empty },
                ),
            ),
            ScanSignal::Number => Ok(CellProgress::Number(self.scratch.as_str())),
            ScanSignal::Fault(message) => Err(SpreadsheetError::InvalidFormat(message)),
            _ => Ok(CellProgress::End),
        }
    }

    /// Reads the next cell that stands in the sheet.
    pub fn next_cell<'b>(&'b mut self) -> (r: SpreadsheetResult<CellProgress<'b>>)
        ensures
            final(self)@ == old(self)@.next().0,
            gives(r, old(self)@.next().1),
    {
        self.phase = CellPhase::Outside;
        self.read_on()
    }

    /// Reads on with the bits of the double that the number's text stands for,
    /// `None` where it stands for none.
    pub fn resume<'b>(&'b mut self, number: Option<u64>) -> (r: SpreadsheetResult<CellProgress<'b>>)
        requires
            old(self)@.scan.phase == CellPhase::Value,
        ensures
            final(self)@ == old(self)@.resumed(number).0,
            gives(r, old(self)@.resumed(number).1),
    {
        match parse_number(
            self.scratch.as_str(),
            number,
            self.cell_type,
            self.style,
            self.formats,
            self.custom_date_formats,
        ) {
            Ok(ParsedCellValue::OwnedText(text)) => {
                self.scratch = text;
                self.gathered = true;
                self.phase = CellPhase::Cell;
                self.read_on()
            },
            Ok(parsed) => {
                self.parsed = parsed;
                self.gathered = false;
                self.phase = CellPhase::Cell;
                self.read_on()
            },
            Err(fault) => Err(SpreadsheetError::InvalidFormat(fault)),
        }
    }

    /// Whether reading has stopped at a number.
    pub fn awaits_number(&self) -> (b: bool)
        ensures
            b == (self@.scan.phase == CellPhase::Value),
    {
        self.phase == CellPhase::Value
    }
}

} // verus!
