//! The rows of an XLSX worksheet.

use vstd::prelude::*;
use crate::formats::CellValue;
use crate::text::{text_of_bytes, utf8_text};
use crate::xlsb_reader::{put_cell, BookInfo};
use crate::xlsx_scan::{
    parse_cell_attributes, parse_number, parse_stored, Parsed, ParsedCellValue, XlsxCellType,
};
use crate::xml_events::{decode_xml_reference, XmlEvent, XmlItem, XmlKind};
use std::collections::HashSet;

verus! {

/// A cell that is being read.
pub struct CellState {
    pub column: Option<u32>,
    pub cell_type: XlsxCellType,
    pub style: int,
    pub parsed: Parsed,
    pub inline: bool,
    pub in_value: bool,
    pub in_text: bool,
    pub text: Seq<char>,
}

/// A row that is being read: its cells so far, the number of columns that cells
/// were read for, whether the row has begun, the column behind the last cell, and
/// the cell being read.
pub struct RowState {
    pub row: Seq<crate::formats::Cell>,
    pub fields: int,
    pub in_row: bool,
    pub next_col: int,
    pub cell: Option<CellState>,
}

/// What an event leads to: reading on, a whole row, the end of the sheet, a number
/// that has to be known, or a fault.
pub enum Signal {
    More,
    Row,
    End,
    Number,
    Fault(Seq<char>),
}

/// The message for a column that is out of bounds.
pub open spec fn column_fault() -> Seq<char> {
    "XLSX column index is outside Excel worksheet bounds"@
}

/// The text that a value in parts has so far.
pub open spec fn text_so_far(parsed: Parsed) -> Seq<char> {
    match parsed {
        Parsed::Text(text) => text,
        _ => Seq::empty(),
    }
}

impl CellState {
    /// The cell with bytes added to the text of its value.
    pub open spec fn with_value_bytes(self, bytes: Seq<u8>) -> (CellState, Signal) {
        if vstd::utf8::valid_utf8(bytes) {
            (CellState { text: self.text + vstd::utf8::decode_utf8(bytes), ..self }, Signal::More)
        } else {
            (self, Signal::Fault("invalid XLSX text: "@ + crate::text::utf8_fault(bytes)))
        }
    }

    /// The cell with text added to its inline string.
    pub open spec fn with_inline(self, text: Seq<char>) -> CellState {
        CellState { parsed: Parsed::Text(text_so_far(self.parsed) + text), ..self }
    }

    /// What an event inside a cell leads to, other than the end of the cell.
    pub open spec fn step(self, item: XmlItem) -> (CellState, Signal) {
        if item.is_tag(XmlKind::Start, "v"@) {
            (CellState { in_value: true, text: Seq::empty(), ..self }, Signal::More)
        } else if item.is_tag(XmlKind::Start, "is"@) {
            (CellState { inline: true, in_text: false, ..self }, Signal::More)
        } else if self.inline && item.is_tag(XmlKind::Start, "t"@) {
            (CellState { in_text: true, ..self }, Signal::More)
        } else if item.is_tag(XmlKind::End, "t"@) {
            (CellState { in_text: false, ..self }, Signal::More)
        } else if self.in_value && (item.kind == XmlKind::Text || item.kind == XmlKind::CData) {
            self.with_value_bytes(item.content)
        } else if self.in_value && item.kind == XmlKind::Reference {
            (
                CellState {
                    text: self.text + crate::xml_events::resolved(item.content),
                    ..self
                },
                Signal::More,
            )
        } else if self.in_value && item.is_tag(XmlKind::End, "v"@) {
            match crate::xlsx_scan::stored_value(self.text, self.cell_type) {
                Some(parsed) => (CellState { parsed, in_value: false, ..self }, Signal::More),
                None => (self, Signal::Number),
            }
        } else if self.inline && self.in_text && (item.kind == XmlKind::Text || item.kind
            == XmlKind::CData) {
            (self.with_inline(crate::text::bytes_text(item.content)), Signal::More)
        } else if self.inline && self.in_text && item.kind == XmlKind::Reference {
            (self.with_inline(crate::xml_events::resolved(item.content)), Signal::More)
        } else if item.is_tag(XmlKind::End, "is"@) {
            (CellState { inline: false, in_text: false, ..self }, Signal::More)
        } else {
            (self, Signal::More)
        }
    }
}

impl RowState {
    /// A row at its start. The count of columns goes on.
    pub open spec fn fresh(fields: int) -> RowState {
        RowState { row: Seq::empty(), fields, in_row: false, next_col: 0, cell: None }
    }

    /// The row with a cell put at a column.
    pub open spec fn with_value(
        self,
        column: Option<u32>,
        value: Option<crate::formats::Plain>,
    ) -> (RowState, Signal) {
        let col = match column {
            Some(column) => column as int,
            None => self.next_col,
        };
        if col >= 16_384 {
            (self, Signal::Fault(column_fault()))
        } else {
            (
                RowState {
                    row: match value {
                        Some(value) => crate::xlsb_reader::with_cell(self.row, col, value),
                        None => crate::xlsb_reader::reaching(self.row, col),
                    },
                    fields: if col + 1 > self.fields {
                        col + 1
                    } else {
                        self.fields
                    },
                    next_col: col + 1,
                    cell: None,
                    ..self
                },
                Signal::More,
            )
        }
    }

    /// What an event outside of cells leads to.
    pub open spec fn outer_step(self, item: XmlItem) -> (RowState, Signal) {
        if item.is_tag(XmlKind::Start, "row"@) {
            (RowState { in_row: true, ..self }, Signal::More)
        } else if item.is_tag(XmlKind::End, "row"@) {
            if self.in_row {
                (self, Signal::Row)
            } else {
                (self, Signal::More)
            }
        } else if item.is_tag(XmlKind::Empty, "row"@) {
            (self, Signal::Row)
        } else if self.in_row && item.is_tag(XmlKind::Start, "c"@) {
            let head = crate::xlsx_scan::head_of(item);
            (
                RowState {
                    cell: Some(
                        CellState {
                            column: head.column,
                            cell_type: head.cell_type,
                            style: head.style,
                            parsed: Parsed::Empty,
                            inline: false,
                            in_value: false,
                            in_text: false,
                            text: Seq::empty(),
                        },
                    ),
                    ..self
                },
                Signal::More,
            )
        } else if self.in_row && item.is_tag(XmlKind::Empty, "c"@) {
            self.with_value(crate::xlsx_scan::head_of(item).column, None)
        } else {
            (self, Signal::More)
        }
    }

    /// What an event leads to.
    pub open spec fn step(self, item: XmlItem, shared: Seq<Seq<char>>) -> (RowState, Signal) {
        match self.cell {
            None => self.outer_step(item),
            Some(cell) => {
                if item.is_tag(XmlKind::End, "c"@) {
                    (RowState { cell: None, ..self }).with_value(
                        cell.column,
                        Some(cell.parsed.value(shared)),
                    )
                } else {
                    let (next, signal) = cell.step(item);
                    (RowState { cell: Some(next), ..self }, signal)
                }
            },
        }
    }

    /// What the next outcome leads to: an event, a fault, or the end of the
    /// document.
    pub open spec fn outcome_step(
        self,
        events: Seq<Result<XmlItem, Seq<char>>>,
        shared: Seq<Seq<char>>,
    ) -> (RowState, Signal) {
        if events.len() == 0 {
            match self.cell {
                None => (self, Signal::End),
                Some(_) => (self, Signal::Fault("unterminated XLSX cell"@)),
            }
        } else {
            match events[0] {
                Err(fault) => (
                    self,
                    Signal::Fault(
                        (match self.cell {
                            None => "XLSX XML: "@,
                            Some(_) => "XLSX cell XML: "@,
                        }) + fault,
                    ),
                ),
                Ok(item) => self.step(item, shared),
            }
        }
    }

    /// What reading on leads to: the row, the outcomes left, and the signal that
    /// stopped it.
    pub open spec fn run(
        self,
        events: Seq<Result<XmlItem, Seq<char>>>,
        shared: Seq<Seq<char>>,
    ) -> (RowState, Seq<Result<XmlItem, Seq<char>>>, Signal)
        decreases events.len(),
    {
        let (next, signal) = self.outcome_step(events, shared);
        let left = if events.len() == 0 {
            events
        } else {
            events.skip(1)
        };
        if signal is More && events.len() > 0 {
            next.run(left, shared)
        } else {
            (next, left, signal)
        }
    }

    /// What the double that a number's text stands for leads to.
    pub open spec fn with_number(self, number: Option<u64>, info: BookInfo) -> (RowState, Signal) {
        let cell = self.cell->0;
        match crate::xlsx_scan::numeric_value(
            cell.text,
            number,
            cell.cell_type,
            cell.style,
            info,
        ) {
            Ok(parsed) => (
                RowState { cell: Some(CellState { parsed, in_value: false, ..cell }), ..self },
                Signal::More,
            ),
            Err(fault) => (self, Signal::Fault(fault)),
        }
    }
}

/// What an event leads to.
#[derive(Debug)]
pub enum RowSignal {
    More,
    Row,
    End,
    Number,
    Fault(String),
}

impl View for RowSignal {
    type V = Signal;

    open spec fn view(&self) -> Signal {
        match *self {
            RowSignal::More => Signal::More,
            RowSignal::Row => Signal::Row,
            RowSignal::End => Signal::End,
            RowSignal::Number => Signal::Number,
            RowSignal::Fault(message) => Signal::Fault(message@),
        }
    }
}

/// A cell that is being read.
#[derive(Debug)]
pub struct CellScanner {
    pub column: Option<u32>,
    pub cell_type: XlsxCellType,
    pub style: usize,
    pub parsed: ParsedCellValue,
    pub inline: bool,
    pub in_value: bool,
    pub in_text: bool,
    pub text: String,
}

impl View for CellScanner {
    type V = CellState;

    open spec fn view(&self) -> CellState {
        CellState {
            column: self.column,
            cell_type: self.cell_type,
            style: self.style as int,
            parsed: self.parsed@,
            inline: self.inline,
            in_value: self.in_value,
            in_text: self.in_text,
            text: self.text@,
        }
    }
}

fn append_inline(parsed: &mut ParsedCellValue, more: &str)
    ensures
        final(parsed)@ == Parsed::Text(text_so_far(old(parsed)@) + more@),
{
    let mut text = match parsed {
        ParsedCellValue::OwnedText(text) => text.clone(),
        _ => String::new(),
    };
    assert(text@ =~= text_so_far(parsed@));
    text.append(more);
    *parsed = ParsedCellValue::OwnedText(text);
}

/// A fault with what it is about in front.
pub fn fault_text(kind: &str, fault: &str) -> (message: String)
    ensures
        message@ == kind@ + fault@,
{
    let mut message = kind.to_owned();
    message.append(fault);
    message
}

impl CellScanner {
    /// Takes an event inside the cell, other than the end of the cell.
    fn take(&mut self, event: &XmlEvent) -> (signal: RowSignal)
        ensures
            (final(self)@, signal@) == old(self)@.step(event@),
    {
        if event.tag_is(XmlKind::Start, "v") {
            self.in_value = true;
            self.text = String::new();
            assert(self.text@ =~= Seq::<char>::empty());
        } else if event.tag_is(XmlKind::Start, "is") {
            self.inline = true;
            self.in_text = false;
        } else if self.inline && event.tag_is(XmlKind::Start, "t") {
            self.in_text = true;
        } else if event.tag_is(XmlKind::End, "t") {
            self.in_text = false;
        } else if self.in_value && (event.kind == XmlKind::Text || event.kind == XmlKind::CData) {
            match utf8_text(event.content.as_slice()) {
                Ok(text) => self.text.append(text.as_str()),
                Err(fault) => {
                    return RowSignal::Fault(fault_text("invalid XLSX text: ", fault.as_str()));
                },
            }
        } else if self.in_value && event.kind == XmlKind::Reference {
            self.text.append(decode_xml_reference(event.content.as_slice()).as_str());
        } else if self.in_value && event.tag_is(XmlKind::End, "v") {
            match parse_stored(self.text.as_str(), self.cell_type) {
                Some(parsed) => {
                    self.parsed = parsed;
                    self.in_value = false;
                },
                None => return RowSignal::Number,
            }
        } else if self.inline && self.in_text && (event.kind == XmlKind::Text || event.kind
            == XmlKind::CData) {
            let text = text_of_bytes(event.content.as_slice());
            append_inline(&mut self.parsed, text.as_str());
        } else if self.inline && self.in_text && event.kind == XmlKind::Reference {
            let text = decode_xml_reference(event.content.as_slice());
            append_inline(&mut self.parsed, text.as_str());
        } else if event.tag_is(XmlKind::End, "is") {
            self.inline = false;
            self.in_text = false;
        }
        RowSignal::More
    }
}

/// A row that is being read.
#[derive(Debug)]
pub struct RowScanner {
    pub row: Vec<CellValue>,
    pub fields: usize,
    pub in_row: bool,
    pub next_col: usize,
    pub cell: Option<CellScanner>,
}

impl View for RowScanner {
    type V = RowState;

    open spec fn view(&self) -> RowState {
        RowState {
            row: crate::formats::row_cells(self.row@),
            fields: self.fields as int,
            in_row: self.in_row,
            next_col: self.next_col as int,
            cell: match self.cell {
                Some(cell) => Some(cell@),
                None => None,
            },
        }
    }
}

/// Makes a row reach up to a column.
fn reach(row: &mut Vec<CellValue>, col: usize)
    requires
        col < usize::MAX,
    ensures
        crate::formats::row_cells(final(row)@) == crate::xlsb_reader::reaching(
            crate::formats::row_cells(old(row)@),
            col as int,
        ),
{
    let ghost before = crate::formats::row_cells(row@);
    while row.len() <= col
        invariant
            col < usize::MAX,
            before.len() <= row@.len(),
            before.len() <= col ==> row@.len() <= col + 1,
            before.len() > col ==> row@.len() == before.len(),
            forall|i: int|
                0 <= i < row@.len() ==> (#[trigger] row@[i])@ == if i < before.len() {
                    before[i]
                } else {
                    crate::xlsb_reader::bare(crate::formats::Plain::Empty)
                },
        decreases col + 1 - row.len(),
    {
        row.push(CellValue::Empty);
    }
    assert(crate::formats::row_cells(row@) =~= crate::xlsb_reader::reaching(before, col as int));
}

impl RowScanner {
    pub fn new() -> (r: Self)
        ensures
            r@ == RowState::fresh(0),
    {
        let r = RowScanner { row: Vec::new(), fields: 0, in_row: false, next_col: 0, cell: None };
        assert(r@.row =~= Seq::<crate::formats::Cell>::empty());
        r
    }

    /// Begins another row.
    pub fn restart(&mut self)
        ensures
            final(self)@ == RowState::fresh(old(self)@.fields),
    {
        self.row.clear();
        self.in_row = false;
        self.next_col = 0;
        self.cell = None;
        assert(self@.row =~= Seq::<crate::formats::Cell>::empty());
    }

    /// Puts a cell at a column, or makes the row reach up to it.
    fn place(&mut self, column: Option<u32>, value: Option<CellValue>) -> (signal: RowSignal)
        requires
            value matches Some(v) ==> v@.format is None,
            old(self).cell is None,
        ensures
            (final(self)@, signal@) == old(self)@.with_value(
                column,
                match value {
                    Some(v) => Some(v@.value),
                    None => None,
                },
            ),
    {
        let col: usize = match column {
            Some(column) => column as usize,
            None => self.next_col,
        };
        if col >= 16_384 {
            return RowSignal::Fault(
                "XLSX column index is outside Excel worksheet bounds".to_owned(),
            );
        }
        self.next_col = col + 1;
        match value {
            Some(value) => put_cell(&mut self.row, col, value),
            None => reach(&mut self.row, col),
        }
        if col + 1 > self.fields {
            self.fields = col + 1;
        }
        RowSignal::More
    }

    /// Takes an event.
    pub fn take(&mut self, event: &XmlEvent, shared: &[String]) -> (signal: RowSignal)
        ensures
            (final(self)@, signal@) == old(self)@.step(event@, crate::biff12::texts(shared@)),
    {
        let ghost before = self@;
        let ghost texts = crate::biff12::texts(shared@);
        match self.cell.take() {
            None => {
                assert(self@ == before);
                if event.tag_is(XmlKind::Start, "row") {
                    self.in_row = true;
                } else if event.tag_is(XmlKind::End, "row") {
                    if self.in_row {
                        return RowSignal::Row;
                    }
                } else if event.tag_is(XmlKind::Empty, "row") {
                    return RowSignal::Row;
                } else if self.in_row && event.tag_is(XmlKind::Start, "c") {
                    let (column, cell_type, style) = parse_cell_attributes(event);
                    let text = String::new();
                    assert(text@ =~= Seq::<char>::empty());
                    self.cell = Some(
                        CellScanner {
                            column,
                            cell_type,
                            style,
                            parsed: ParsedCellValue::Empty,
                            inline: false,
                            in_value: false,
                            in_text: false,
                            text,
                        },
                    );
                } else if self.in_row && event.tag_is(XmlKind::Empty, "c") {
                    let (column, _, _) = parse_cell_attributes(event);
                    return self.place(column, None);
                }
                RowSignal::More
            },
            Some(cell) => {
                let mut cell = cell;
                if event.tag_is(XmlKind::End, "c") {
                    let value = cell.parsed.value(shared).to_owned();
                    return self.place(cell.column, Some(value));
                }
                let signal = cell.take(event);
                self.cell = Some(cell);
                signal
            },
        }
    }

    /// Takes the bits of the double that the text of a number stands for, `None`
    /// where it stands for none.
    pub fn take_number(
        &mut self,
        number: Option<u64>,
        formats: &[u16],
        date_formats: &HashSet<u16>,
    ) -> (signal: RowSignal)
        requires
            old(self)@.cell is Some,
        ensures
            (final(self)@, signal@) == old(self)@.with_number(
                number,
                BookInfo {
                    shared: Seq::empty(),
                    formats: formats@,
                    date_formats: date_formats@,
                },
            ),
    {
        let mut signal = RowSignal::More;
        match self.cell.take() {
            Some(cell) => {
                let mut cell = cell;
                match parse_number(
                    cell.text.as_str(),
                    number,
                    cell.cell_type,
                    cell.style,
                    formats,
                    date_formats,
                ) {
                    Ok(parsed) => {
                        cell.parsed = parsed;
                        cell.in_value = false;
                    },
                    Err(fault) => {
                        signal = RowSignal::Fault(fault);
                    },
                }
                self.cell = Some(cell);
            },
            None => {},
        }
        signal
    }
}

} // verus!
