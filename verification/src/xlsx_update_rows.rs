//! The rows that replace those of an XLSX worksheet, as XML text.
//!
//! Texts go into the workbook's shared strings where it has any, else into the
//! cells themselves. The counts of the shared strings wrap round at the size of
//! the machine.

use vstd::prelude::*;
use crate::formats::{borrow_cell, CellValue, CellValueRef};
use crate::number::{finite, NumberTable};
use crate::string_table::StringTable;
use crate::text::decimal_text;
use crate::xlsx_patch::push_text_element;
use crate::xlsx_styles::ExistingStyles;
use crate::xml_patch::push_text;

verus! {

/// The shared strings of a workbook that is updated: the document that holds them,
/// the texts, how many cells point at them, the texts that the document does not
/// hold yet, and whether the document has to be written anew.
#[verifier::ext_equal]
pub struct Strings {
    pub xml: Option<Seq<char>>,
    pub values: Seq<Seq<char>>,
    pub count: int,
    pub pending: Seq<Seq<char>>,
    pub dirty: bool,
}

/// The number behind `n`, zero behind the largest.
pub open spec fn next_count(n: int) -> int {
    if n == usize::MAX {
        0
    } else {
        n + 1
    }
}

impl Strings {
    /// The shared strings with one more cell that points at a text.
    pub open spec fn with_use(self, text: Seq<char>) -> Strings {
        Strings {
            values: crate::string_table::with_text(self.values, text),
            pending: if crate::string_table::position(self.values, text) is Some {
                self.pending
            } else {
                self.pending.push(text)
            },
            count: next_count(self.count),
            dirty: true,
            ..self
        }
    }

    /// The shared strings once the cells that pointed at them from a sheet are
    /// gone.
    pub open spec fn released(self, refs: int) -> Strings {
        if self.xml is Some {
            Strings {
                count: if self.count < refs {
                    0
                } else {
                    self.count - refs
                },
                dirty: true,
                ..self
            }
        } else {
            self
        }
    }
}

/// What rendering leads to: the shared strings behind it, and its text.
pub struct Written {
    pub strings: Strings,
    pub xml: Seq<char>,
}

/// The style of a cell; style zero is left unsaid.
pub open spec fn said_style(style: int) -> Option<int> {
    if style > 0 {
        Some(style)
    } else {
        None
    }
}

/// A cell with a text.
pub open spec fn text_cell(strings: Strings, style: int, text: Seq<char>) -> Written {
    if strings.xml is None {
        Written {
            strings,
            xml: "<c t=\"inlineStr\""@ + crate::xlsx_cells::style_attr(said_style(style))
                + "><is>"@ + crate::xlsx_patch::text_element(Seq::empty(), text) + "</is></c>"@,
        }
    } else {
        Written {
            strings: strings.with_use(text),
            xml: crate::xlsx_cells::cell_element(
                " t=\"s\""@,
                said_style(style),
                crate::text::decimal(crate::string_table::index_for(strings.values, text)),
            ),
        }
    }
}

/// The looks that new cells take over: the styled cells that were there, and the
/// style for dates.
pub struct Looks {
    pub cells: Seq<crate::xlsx_styles::StyledCell>,
    pub date: Option<int>,
}

/// A cell of a column. A number that is not finite is written as text. A date in a
/// column without a style has the style for dates.
pub open spec fn value_cell(
    strings: Strings,
    value: crate::formats::Plain,
    col: int,
    looks: Looks,
    numbers: NumberTable,
) -> Written {
    let style = crate::xlsx_styles::data_style(looks.cells, col);
    let said = said_style(style);
    match value {
        crate::formats::Plain::Empty => Written { strings, xml: Seq::empty() },
        crate::formats::Plain::Number(n) => if crate::number::is_finite(numbers.bits(n)) {
            Written {
                strings,
                xml: crate::xlsx_cells::cell_element(Seq::empty(), said, numbers.display(n)),
            }
        } else {
            text_cell(strings, style, numbers.display(n))
        },
        crate::formats::Plain::Integer(n) => Written {
            strings,
            xml: crate::xlsx_cells::cell_element(
                Seq::empty(),
                said,
                crate::text::decimal(n as int),
            ),
        },
        crate::formats::Plain::Boolean(b) => Written {
            strings,
            xml: crate::xlsx_cells::cell_element(
                " t=\"b\""@,
                said,
                if b {
                    "1"@
                } else {
                    "0"@
                },
            ),
        },
        crate::formats::Plain::DateTime(d) => Written {
            strings,
            xml: crate::xlsx_cells::cell_element(
                Seq::empty(),
                said_style(
                    if style > 0 {
                        style
                    } else {
                        match looks.date {
                            Some(date) => date,
                            None => 0,
                        }
                    },
                ),
                numbers.display(d),
            ),
        },
        crate::formats::Plain::Text(s) => text_cell(strings, style, s),
    }
}

/// The first `n` cells of a row.
pub open spec fn value_cells(
    strings: Strings,
    row: Seq<crate::formats::Cell>,
    n: nat,
    looks: Looks,
    numbers: NumberTable,
) -> Written
    decreases n,
{
    if n == 0 {
        Written { strings, xml: Seq::empty() }
    } else {
        let before = value_cells(strings, row, (n - 1) as nat, looks, numbers);
        let last = value_cell(before.strings, row[n - 1].value, n - 1, looks, numbers);
        Written { strings: last.strings, xml: before.xml + last.xml }
    }
}

/// The first `n` cells of a header row.
pub open spec fn header_cells(
    strings: Strings,
    headers: Seq<Seq<char>>,
    n: nat,
    looks: Looks,
) -> Written
    decreases n,
{
    if n == 0 {
        Written { strings, xml: Seq::empty() }
    } else {
        let before = header_cells(strings, headers, (n - 1) as nat, looks);
        let last = text_cell(
            before.strings,
            crate::xlsx_styles::header_style(looks.cells, n - 1),
            headers[n - 1],
        );
        Written { strings: last.strings, xml: before.xml + last.xml }
    }
}

/// A row element around its cells.
pub open spec fn row_element(cells: Seq<char>) -> Seq<char> {
    "<row>"@ + cells + "</row>"@
}

/// A row element with a namespace prefix and its number.
pub open spec fn numbered_row(prefix: Seq<char>, number: int, cells: Seq<char>) -> Seq<char> {
    "<"@ + prefix + "row r=\""@ + crate::text::decimal(number) + "\">"@ + cells + "</"@ + prefix
        + "row>"@
}

/// The first `n` rows of a sheet.
pub open spec fn value_rows(
    strings: Strings,
    rows: Seq<Seq<crate::formats::Cell>>,
    n: nat,
    looks: Looks,
    numbers: NumberTable,
) -> Written
    decreases n,
{
    if n == 0 {
        Written { strings, xml: Seq::empty() }
    } else {
        let before = value_rows(strings, rows, (n - 1) as nat, looks, numbers);
        let row = rows[n - 1];
        let last = value_cells(before.strings, row, row.len(), looks, numbers);
        Written { strings: last.strings, xml: before.xml + row_element(last.xml) }
    }
}

/// The header row, nothing where there are no headers.
pub open spec fn header_row(
    strings: Strings,
    headers: Option<Seq<Seq<char>>>,
    looks: Looks,
) -> Written {
    match headers {
        Some(h) => {
            let inner = header_cells(strings, h, h.len(), looks);
            Written { strings: inner.strings, xml: row_element(inner.xml) }
        },
        None => Written { strings, xml: Seq::empty() },
    }
}

/// The rows of a sheet behind its header row.
pub open spec fn sheet_data(
    strings: Strings,
    headers: Option<Seq<Seq<char>>>,
    rows: Seq<Seq<crate::formats::Cell>>,
    looks: Looks,
    numbers: NumberTable,
) -> Written {
    let header = header_row(strings, headers, looks);
    let body = value_rows(header.strings, rows, rows.len(), looks, numbers);
    Written { strings: body.strings, xml: header.xml + body.xml }
}

/// The shared strings of a workbook that is updated.
pub struct SharedStrings {
    pub xml: Option<Vec<char>>,
    pub values: StringTable,
    pub count: usize,
    pub pending: Vec<String>,
    pub dirty: bool,
}

impl View for SharedStrings {
    type V = Strings;

    open spec fn view(&self) -> Strings {
        Strings {
            xml: match self.xml {
                Some(xml) => Some(xml@),
                None => None,
            },
            values: self.values@,
            count: self.count as int,
            pending: crate::biff12::texts(self.pending@),
            dirty: self.dirty,
        }
    }
}

/// No shared strings.
pub open spec fn no_strings() -> Strings {
    Strings {
        xml: None,
        values: Seq::empty(),
        count: 0,
        pending: Seq::empty(),
        dirty: false,
    }
}

impl SharedStrings {
    pub open spec fn wf(self) -> bool {
        self.values.wf()
    }

    /// No shared strings.
    pub fn new() -> (r: Self)
        ensures
            r.wf(),
            r@ == no_strings(),
    {
        let r = SharedStrings {
            xml: None,
            values: StringTable::new(),
            count: 0,
            pending: Vec::new(),
            dirty: false,
        };
        assert(r@ =~= no_strings());
        r
    }

    /// A copy of the shared strings.
    pub fn copy(&self) -> (r: Self)
        requires
            self.wf(),
        ensures
            r.wf(),
            r@ == self@,
    {
        let xml = match &self.xml {
            Some(xml) => Some(vstd::slice::slice_to_vec(xml.as_slice())),
            None => None,
        };
        let values = self.values.copy();
        let pending = copy_texts(&self.pending);
        let r = SharedStrings { xml, values, count: self.count, pending, dirty: self.dirty };
        assert(r@ =~= self@);
        r
    }

    /// Counts one more cell that points at a text. Returns the index of the text.
    pub fn use_text(&mut self, text: &str) -> (index: usize)
        requires
            old(self).wf(),
        ensures
            final(self).wf(),
            final(self)@ == old(self)@.with_use(text@),
            index == crate::string_table::index_for(old(self)@.values, text@),
    {
        let ghost before = *self;
        let index: usize = match self.values.find(text) {
            Some(i) => i,
            None => {
                let i: usize = self.values.len();
                self.values.push(text);
                self.pending.push(text.to_owned());
                assert(crate::biff12::texts(self.pending@) =~= crate::biff12::texts(
                    before.pending@,
                ).push(text@));
                i
            },
        };
        self.count = if self.count == usize::MAX {
            0
        } else {
            self.count + 1
        };
        self.dirty = true;
        assert(self@ =~= before@.with_use(text@));
        index
    }

    /// Forgets the cells that pointed at the shared strings from a sheet.
    pub fn release(&mut self, refs: usize)
        requires
            old(self).wf(),
        ensures
            final(self).wf(),
            final(self)@ == old(self)@.released(refs as int),
    {
        let ghost before = *self;
        if self.xml.is_some() {
            self.count = if self.count < refs {
                0
            } else {
                self.count - refs
            };
            self.dirty = true;
        }
        assert(self@ =~= before@.released(refs as int));
    }
}

/// A copy of texts.
pub fn copy_texts(list: &Vec<String>) -> (r: Vec<String>)
    ensures
        crate::biff12::texts(r@) == crate::biff12::texts(list@),
{
    let mut r: Vec<String> = Vec::new();
    let mut i: usize = 0;
    while i < list.len()
        invariant
            i <= list.len(),
            crate::biff12::texts(r@) == crate::biff12::texts(list@).take(i as int),
        decreases list.len() - i,
    {
        let ghost earlier = r@;
        r.push(list[i].as_str().to_owned());
        assert(crate::biff12::texts(r@) =~= crate::biff12::texts(earlier).push(list@[i as int]@));
        assert(crate::biff12::texts(r@) =~= crate::biff12::texts(list@).take(i as int + 1));
        i += 1;
    }
    assert(crate::biff12::texts(list@).take(i as int) =~= crate::biff12::texts(list@));
    r
}

/// The looks that new cells take over.
pub struct CellLooks {
    pub styles: ExistingStyles,
    pub date: Option<usize>,
}

impl View for CellLooks {
    type V = Looks;

    open spec fn view(&self) -> Looks {
        Looks {
            cells: self.styles@,
            date: match self.date {
                Some(date) => Some(date as int),
                None => None,
            },
        }
    }
}

fn push_cell_element(out: &mut Vec<char>, kind: &str, style: usize, value: &str)
    ensures
        final(out)@ == old(out)@ + crate::xlsx_cells::cell_element(
            kind@,
            said_style(style as int),
            value@,
        ),
{
    let ghost before = out@;
    push_text(out, "<c");
    push_text(out, kind);
    push_style(out, style);
    push_text(out, "><v>");
    push_text(out, value);
    push_text(out, "</v></c>");
    assert(out@ =~= before + crate::xlsx_cells::cell_element(
        kind@,
        said_style(style as int),
        value@,
    ));
}

fn push_style(out: &mut Vec<char>, style: usize)
    ensures
        final(out)@ == old(out)@ + crate::xlsx_cells::style_attr(said_style(style as int)),
{
    let ghost before = out@;
    if style > 0 {
        push_text(out, " s=\"");
        let digits = decimal_text(style as i128);
        push_text(out, digits.as_str());
        push_text(out, "\"");
    }
    assert(out@ =~= before + crate::xlsx_cells::style_attr(said_style(style as int)));
}

fn push_text_cell(strings: &mut SharedStrings, out: &mut Vec<char>, style: usize, text: &str)
    requires
        old(strings).wf(),
    ensures
        final(strings).wf(),
        ({
            let r = text_cell(old(strings)@, style as int, text@);
            final(strings)@ == r.strings && final(out)@ == old(out)@ + r.xml
        }),
{
    let ghost before = out@;
    if strings.xml.is_none() {
        push_text(out, "<c t=\"inlineStr\"");
        push_style(out, style);
        push_text(out, "><is>");
        let prefix: Vec<char> = Vec::new();
        assert(prefix@ =~= Seq::<char>::empty());
        push_text_element(out, &prefix, text);
        push_text(out, "</is></c>");
        assert(out@ =~= before + text_cell(strings@, style as int, text@).xml);
    } else {
        let index: usize = strings.use_text(text);
        let value = decimal_text(index as i128);
        push_cell_element(out, " t=\"s\"", style, value.as_str());
    }
}

fn push_value_cell(
    strings: &mut SharedStrings,
    out: &mut Vec<char>,
    raw: &CellValue,
    col: usize,
    looks: &CellLooks,
    numbers: &NumberTable,
)
    requires
        old(strings).wf(),
        looks.styles.wf(),
    ensures
        final(strings).wf(),
        ({
            let r = value_cell(old(strings)@, raw@.value, col as int, looks@, *numbers);
            final(strings)@ == r.strings && final(out)@ == old(out)@ + r.xml
        }),
{
    let style: usize = looks.styles.data_style_of(col);
    assert("".view() =~= Seq::<char>::empty()) by {
        reveal_strlit("");
    }
    match borrow_cell(raw) {
        CellValueRef::Empty => {
            assert(out@ + Seq::<char>::empty() =~= out@);
        },
        CellValueRef::Number(n) => {
            if finite(numbers.bits_of(n)) {
                push_cell_element(out, "", style, numbers.display_text(n));
            } else {
                push_text_cell(strings, out, style, numbers.display_text(n));
            }
        },
        CellValueRef::Integer(n) => {
            let text = decimal_text(n as i128);
            push_cell_element(out, "", style, text.as_str());
        },
        CellValueRef::Boolean(b) => {
            push_cell_element(
                out,
                " t=\"b\"",
                style,
                if b {
                    "1"
                } else {
                    "0"
                },
            );
        },
        CellValueRef::DateTime(d) => {
            let date_style: usize = if style > 0 {
                style
            } else {
                match looks.date {
                    Some(date) => date,
                    None => 0,
                }
            };
            push_cell_element(out, "", date_style, numbers.display_text(d));
        },
        CellValueRef::Text(s) => {
            push_text_cell(strings, out, style, s);
        },
    }
}

/// Appends the cells of a row.
pub fn push_value_cells(
    strings: &mut SharedStrings,
    out: &mut Vec<char>,
    row: &[CellValue],
    looks: &CellLooks,
    numbers: &NumberTable,
)
    requires
        old(strings).wf(),
        looks.styles.wf(),
    ensures
        final(strings).wf(),
        ({
            let cells = crate::formats::row_cells(row@);
            let r = value_cells(old(strings)@, cells, cells.len(), looks@, *numbers);
            final(strings)@ == r.strings && final(out)@ == old(out)@ + r.xml
        }),
{
    let ghost start = strings@;
    let ghost before = out@;
    let ghost cells = crate::formats::row_cells(row@);
    let mut i: usize = 0;
    assert(before + Seq::<char>::empty() =~= before);
    while i < row.len()
        invariant
            i <= row.len(),
            strings.wf(),
            looks.styles.wf(),
            cells == crate::formats::row_cells(row@),
            ({
                let r = value_cells(start, cells, i as nat, looks@, *numbers);
                strings@ == r.strings && out@ == before + r.xml
            }),
        decreases row.len() - i,
    {
        let ghost earlier = value_cells(start, cells, i as nat, looks@, *numbers);
        push_value_cell(strings, out, &row[i], i, looks, numbers);
        proof {
            assert(cells[i as int] == row@[i as int]@);
            let r = value_cells(start, cells, (i + 1) as nat, looks@, *numbers);
            assert(out@ =~= before + r.xml);
        }
        i += 1;
    }
}

/// Appends the cells of a header row.
pub fn push_header_cells(
    strings: &mut SharedStrings,
    out: &mut Vec<char>,
    headers: &Vec<String>,
    looks: &CellLooks,
)
    requires
        old(strings).wf(),
        looks.styles.wf(),
    ensures
        final(strings).wf(),
        ({
            let texts = crate::biff12::texts(headers@);
            let r = header_cells(old(strings)@, texts, texts.len(), looks@);
            final(strings)@ == r.strings && final(out)@ == old(out)@ + r.xml
        }),
{
    let ghost start = strings@;
    let ghost before = out@;
    let ghost texts = crate::biff12::texts(headers@);
    let mut i: usize = 0;
    assert(before + Seq::<char>::empty() =~= before);
    while i < headers.len()
        invariant
            i <= headers.len(),
            strings.wf(),
            looks.styles.wf(),
            texts == crate::biff12::texts(headers@),
            ({
                let r = header_cells(start, texts, i as nat, looks@);
                strings@ == r.strings && out@ == before + r.xml
            }),
        decreases headers.len() - i,
    {
        let style: usize = looks.styles.header_style_of(i);
        push_text_cell(strings, out, style, headers[i].as_str());
        proof {
            let r = header_cells(start, texts, (i + 1) as nat, looks@);
            assert(out@ =~= before + r.xml);
        }
        i += 1;
    }
}

/// The texts of optional headers.
pub open spec fn optional_texts(headers: Option<Vec<String>>) -> Option<Seq<Seq<char>>> {
    match headers {
        Some(h) => Some(crate::biff12::texts(h@)),
        None => None,
    }
}

/// The rows of a sheet behind its header row, as XML text.
pub fn build_sheet_data(
    strings: &mut SharedStrings,
    headers: &Option<Vec<String>>,
    rows: &Vec<Vec<CellValue>>,
    looks: &CellLooks,
    numbers: &NumberTable,
) -> (out: Vec<char>)
    requires
        old(strings).wf(),
        looks.styles.wf(),
    ensures
        final(strings).wf(),
        ({
            let r = sheet_data(
                old(strings)@,
                optional_texts(*headers),
                crate::formats::sheet_cells(rows@),
                looks@,
                *numbers,
            );
            final(strings)@ == r.strings && out@ == r.xml
        }),
{
    let ghost start = strings@;
    let mut out: Vec<char> = Vec::new();
    match headers {
        Some(h) => {
            push_text(&mut out, "<row>");
            push_header_cells(strings, &mut out, h, looks);
            push_text(&mut out, "</row>");
        },
        None => {},
    }
    let ghost header = header_row(start, optional_texts(*headers), looks@);
    let ghost sheet = crate::formats::sheet_cells(rows@);
    proof {
        assert(out@ =~= header.xml);
        assert(header.xml + Seq::<char>::empty() =~= header.xml);
    }
    let mut i: usize = 0;
    while i < rows.len()
        invariant
            i <= rows.len(),
            strings.wf(),
            looks.styles.wf(),
            sheet == crate::formats::sheet_cells(rows@),
            ({
                let r = value_rows(header.strings, sheet, i as nat, looks@, *numbers);
                strings@ == r.strings && out@ == header.xml + r.xml
            }),
        decreases rows.len() - i,
    {
        let ghost earlier = out@;
        push_text(&mut out, "<row>");
        push_value_cells(strings, &mut out, rows[i].as_slice(), looks, numbers);
        push_text(&mut out, "</row>");
        proof {
            assert(sheet[i as int] == crate::formats::row_cells(rows@[i as int]@));
            let r = value_rows(header.strings, sheet, (i + 1) as nat, looks@, *numbers);
            assert(out@ =~= header.xml + r.xml);
        }
        i += 1;
    }
    out
}

} // verus!
