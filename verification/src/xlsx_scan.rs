//! How the events of an XLSX worksheet become rows and cells.
//!
//! A number is read in two steps: the scan stops with its text, and goes on with
//! the double that the text stands for.

use vstd::prelude::*;
use crate::formats::CellValueRef;
use crate::number::Number;
use crate::xlsb_reader::is_date_num_fmt;
use crate::xml_events::{is_text, XmlAttribute, XmlEvent, XmlItem};
use std::collections::HashSet;

verus! {

/// The byte is a decimal digit.
pub open spec fn is_byte_digit(b: u8) -> bool {
    0x30 <= b <= 0x39
}

/// The bytes are decimal digits.
pub open spec fn all_digits(s: Seq<u8>) -> bool {
    forall|i: int| 0 <= i < s.len() ==> is_byte_digit(#[trigger] s[i])
}

/// The number that decimal digits stand for.
pub open spec fn digits_number(s: Seq<u8>) -> nat
    decreases s.len(),
{
    if s.len() == 0 {
        0
    } else {
        10 * digits_number(s.drop_last()) + (s.last() - 0x30) as nat
    }
}

/// The number of at most 64 bits that bytes stand for: one digit at least, and
/// nothing but digits.
pub open spec fn unsigned(s: Seq<u8>) -> Option<u64> {
    if s.len() > 0 && all_digits(s) && digits_number(s) <= u64::MAX {
        Some(digits_number(s) as u64)
    } else {
        None
    }
}

/// `atoi_simd::parse` for `u64`, with zeroes in front skipped and no plus sign
/// accepted: the number that the digits stand for, `None` where there is none, one
/// byte is no digit, or the number is too large.
#[verifier::external_body]
fn parse_unsigned(s: &[u8]) -> (r: Option<u64>)
    ensures
        r == unsigned(s@),
{
    atoi_simd::parse::<u64, true, false>(s).ok()
}

/// An index: the number, or another one where the bytes stand for none that fits.
pub open spec fn index_or(s: Seq<u8>, other: usize) -> usize {
    match unsigned(s) {
        Some(n) => if n <= usize::MAX {
            n as usize
        } else {
            other
        },
        None => other,
    }
}

fn parse_index(s: &[u8], other: usize) -> (n: usize)
    ensures
        n == index_or(s@, other),
{
    match parse_unsigned(s) {
        Some(n) => if n <= usize::MAX as u64 {
            n as usize
        } else {
            other
        },
        None => other,
    }
}

/// The byte is an ASCII letter.
pub open spec fn is_letter(b: u8) -> bool {
    0x41 <= b <= 0x5a || 0x61 <= b <= 0x7a
}

/// The place of a letter in the alphabet, from one.
pub open spec fn letter_rank(b: u8) -> int {
    if b >= 0x61 {
        b - 0x60
    } else {
        b - 0x40
    }
}

/// The number of letters that the bytes start with.
pub open spec fn letters_end(s: Seq<u8>, from: int) -> int
    decreases s.len() - from,
{
    if from >= s.len() {
        s.len() as int
    } else if is_letter(s[from]) {
        letters_end(s, from + 1)
    } else {
        from
    }
}

/// The number of the column that letters name, from one.
pub open spec fn letters_number(s: Seq<u8>) -> int
    decreases s.len(),
{
    if s.len() == 0 {
        0
    } else {
        26 * letters_number(s.drop_last()) + letter_rank(s.last())
    }
}

/// The zero-based row and column of a cell reference.
pub open spec fn cell_reference(s: Seq<u8>) -> Option<(u32, u32)> {
    let split = letters_end(s, 0);
    let column = letters_number(s.take(split));
    if split == 0 || split == s.len() || column > u32::MAX {
        None
    } else {
        match unsigned(s.skip(split)) {
            Some(row) => if 0 < row <= u32::MAX {
                Some(((row - 1) as u32, (column - 1) as u32))
            } else {
                None
            },
            None => None,
        }
    }
}

proof fn lemma_letters_positive(s: Seq<u8>)
    requires
        forall|i: int| 0 <= i < s.len() ==> is_letter(#[trigger] s[i]),
    ensures
        letters_number(s) >= 0,
        s.len() > 0 ==> letters_number(s) >= 1,
    decreases s.len(),
{
    if s.len() > 0 {
        lemma_letters_positive(s.drop_last());
        assert(is_letter(s.last()));
    }
}

proof fn lemma_letters_grow(s: Seq<u8>, k: int)
    requires
        forall|i: int| 0 <= i < s.len() ==> is_letter(#[trigger] s[i]),
        0 <= k <= s.len(),
    ensures
        letters_number(s.take(k)) <= letters_number(s),
    decreases s.len() - k,
{
    if k < s.len() {
        let most = s.drop_last();
        assert(most.take(k) =~= s.take(k));
        lemma_letters_grow(most, k);
        lemma_letters_positive(most);
        assert(is_letter(s.last()));
    } else {
        assert(s.take(k) =~= s);
    }
}

/// Reads a cell reference.
pub fn parse_cell_reference(value: &[u8]) -> (r: Option<(u32, u32)>)
    ensures
        r == cell_reference(value@),
{
    let mut split: usize = 0;
    while split < value.len() && ((0x41 <= value[split] && value[split] <= 0x5a) || (0x61
        <= value[split] && value[split] <= 0x7a))
        invariant
            split <= value.len(),
            letters_end(value@, 0) == letters_end(value@, split as int),
            forall|i: int| 0 <= i < split ==> is_letter(#[trigger] value@[i]),
        decreases value.len() - split,
    {
        split += 1;
    }
    if split == 0 || split == value.len() {
        return None;
    }
    let ghost letters = value@.take(split as int);
    let mut column: u32 = 0;
    let mut i: usize = 0;
    while i < split
        invariant
            i <= split < value.len(),
            split == letters_end(value@, 0),
            letters == value@.take(split as int),
            forall|i: int| 0 <= i < split ==> is_letter(#[trigger] value@[i]),
            column == letters_number(letters.take(i as int)),
        decreases split - i,
    {
        let rank: u32 = if value[i] >= 0x61 {
            (value[i] - 0x60) as u32
        } else {
            (value[i] - 0x40) as u32
        };
        proof {
            assert(letters.take(i as int + 1).drop_last() =~= letters.take(i as int));
            assert(is_letter(value@[i as int]));
            lemma_letters_grow(letters, i as int + 1);
        }
        let next: u64 = column as u64 * 26 + rank as u64;
        if next > u32::MAX as u64 {
            return None;
        }
        column = next as u32;
        i += 1;
    }
    proof {
        assert(letters.take(split as int) =~= letters);
        lemma_letters_positive(letters);
    }
    let end: usize = value.len();
    let digits = vstd::slice::slice_subrange(value, split, end);
    assert(digits@ =~= value@.skip(split as int));
    match parse_unsigned(digits) {
        Some(row) => if 0 < row && row <= u32::MAX as u64 {
            Some(((row - 1) as u32, column - 1))
        } else {
            None
        },
        None => None,
    }
}

/// How the value of a cell is stored.
#[derive(Debug, Clone, Copy, PartialEq, Eq, Structural)]
pub enum XlsxCellType {
    Number,
    SharedString,
    Boolean,
    InlineString,
    Other,
}

/// The storage that the text of a cell's `t` attribute stands for.
pub open spec fn storage(value: Seq<u8>) -> XlsxCellType {
    if value == vstd::utf8::encode_utf8("s"@) {
        XlsxCellType::SharedString
    } else if value == vstd::utf8::encode_utf8("b"@) {
        XlsxCellType::Boolean
    } else if value == vstd::utf8::encode_utf8("inlineStr"@) || value == vstd::utf8::encode_utf8(
        "inline_string"@,
    ) {
        XlsxCellType::InlineString
    } else {
        XlsxCellType::Other
    }
}

/// What the attributes of a cell say: its column, how its value is stored, and its
/// style.
pub struct CellHead {
    pub column: Option<u32>,
    pub cell_type: XlsxCellType,
    pub style: int,
}

/// What the first `n` attributes of a cell say.
pub open spec fn cell_head(list: Seq<Option<XmlAttribute>>, n: nat) -> CellHead
    decreases n,
{
    if n == 0 {
        CellHead { column: None, cell_type: XlsxCellType::Number, style: 0 }
    } else {
        let before = cell_head(list, (n - 1) as nat);
        match list[n - 1] {
            Some(a) => if a.key == vstd::utf8::encode_utf8("r"@) {
                CellHead {
                    column: match cell_reference(a.value) {
                        Some((_, column)) => Some(column),
                        None => None,
                    },
                    ..before
                }
            } else if a.key == vstd::utf8::encode_utf8("s"@) {
                CellHead { style: index_or(a.value, 0) as int, ..before }
            } else if a.key == vstd::utf8::encode_utf8("t"@) {
                CellHead { cell_type: storage(a.value), ..before }
            } else {
                before
            },
            None => before,
        }
    }
}

/// What a cell tag says.
pub open spec fn head_of(item: XmlItem) -> CellHead {
    cell_head(item.attributes, item.attributes.len())
}

/// Reads the attributes of a cell.
pub fn parse_cell_attributes(event: &XmlEvent) -> (r: (Option<u32>, XlsxCellType, usize))
    ensures
        head_of(event@) == (CellHead { column: r.0, cell_type: r.1, style: r.2 as int }),
{
    let mut column: Option<u32> = None;
    let mut cell_type = XlsxCellType::Number;
    let mut style: usize = 0;
    let mut i: usize = 0;
    while i < event.attributes.len()
        invariant
            i <= event.attributes@.len(),
            cell_head(event@.attributes, i as nat) == (CellHead {
                column,
                cell_type,
                style: style as int,
            }),
        decreases event.attributes.len() - i,
    {
        match &event.attributes[i] {
            Some((key, value)) => {
                if is_text(key.as_slice(), "r") {
                    column = match parse_cell_reference(value.as_slice()) {
                        Some((_, column)) => Some(column),
                        None => None,
                    };
                } else if is_text(key.as_slice(), "s") {
                    style = parse_index(value.as_slice(), 0);
                } else if is_text(key.as_slice(), "t") {
                    cell_type = read_storage(value.as_slice());
                }
            },
            None => {},
        }
        i += 1;
    }
    (column, cell_type, style)
}

fn read_storage(value: &[u8]) -> (t: XlsxCellType)
    ensures
        t == storage(value@),
{
    if is_text(value, "s") {
        XlsxCellType::SharedString
    } else if is_text(value, "b") {
        XlsxCellType::Boolean
    } else if is_text(value, "inlineStr") || is_text(value, "inline_string") {
        XlsxCellType::InlineString
    } else {
        XlsxCellType::Other
    }
}

/// The row, counted from zero, that a row number stands for: a plain number of at
/// least one.
pub open spec fn row_of(s: Seq<u8>) -> Option<u32> {
    match unsigned(s) {
        Some(n) => if 1 <= n <= 0x1_0000_0000 {
            Some((n - 1) as u32)
        } else {
            None
        },
        None => None,
    }
}

fn parse_row(s: &[u8]) -> (r: Option<u32>)
    ensures
        r == row_of(s@),
{
    match parse_unsigned(s) {
        Some(n) => if 1 <= n && n <= 0x1_0000_0000 {
            Some((n - 1) as u32)
        } else {
            None
        },
        None => None,
    }
}

/// The row that the first attribute `r` from `i` on names, counted from zero.
pub open spec fn row_number(list: Seq<Option<XmlAttribute>>, i: int) -> Option<u32>
    decreases list.len() - i,
{
    if i >= list.len() {
        None
    } else {
        match list[i] {
            Some(a) => if a.key == vstd::utf8::encode_utf8("r"@) {
                row_of(a.value)
            } else {
                row_number(list, i + 1)
            },
            None => row_number(list, i + 1),
        }
    }
}

/// The row that a row tag names, counted from zero.
pub fn parse_row_number(event: &XmlEvent) -> (r: Option<u32>)
    ensures
        r == row_number(event@.attributes, 0),
{
    let mut i: usize = 0;
    while i < event.attributes.len()
        invariant
            i <= event.attributes@.len(),
            row_number(event@.attributes, 0) == row_number(event@.attributes, i as int),
        decreases event.attributes.len() - i,
    {
        match &event.attributes[i] {
            Some((key, value)) => {
                if is_text(key.as_slice(), "r") {
                    return parse_row(value.as_slice());
                }
            },
            None => {},
        }
        i += 1;
    }
    None
}

/// The value of a cell as far as it has been read.
pub enum Parsed {
    Empty,
    SharedString(usize),
    Number(u64),
    Boolean(bool),
    DateTime(u64),
    Text(Seq<char>),
}

/// The value of a cell as far as it has been read.
#[derive(Debug)]
pub enum ParsedCellValue {
    Empty,
    SharedString(usize),
    Number(u64),
    Boolean(bool),
    DateTime(u64),
    OwnedText(String),
}

impl View for ParsedCellValue {
    type V = Parsed;

    open spec fn view(&self) -> Parsed {
        match *self {
            ParsedCellValue::Empty => Parsed::Empty,
            ParsedCellValue::SharedString(i) => Parsed::SharedString(i),
            ParsedCellValue::Number(n) => Parsed::Number(n),
            ParsedCellValue::Boolean(b) => Parsed::Boolean(b),
            ParsedCellValue::DateTime(n) => Parsed::DateTime(n),
            ParsedCellValue::OwnedText(s) => Parsed::Text(s@),
        }
    }
}

impl Parsed {
    /// The value that the cell has.
    pub open spec fn value(self, shared: Seq<Seq<char>>) -> crate::formats::Plain {
        match self {
            Parsed::Empty => crate::formats::Plain::Empty,
            Parsed::SharedString(i) => if i < shared.len() {
                crate::formats::Plain::Text(shared[i as int])
            } else {
                crate::formats::Plain::Empty
            },
            Parsed::Number(n) => crate::formats::Plain::Number(Number::Double(n)),
            Parsed::Boolean(b) => crate::formats::Plain::Boolean(b),
            Parsed::DateTime(n) => crate::formats::Plain::DateTime(Number::Double(n)),
            Parsed::Text(s) => crate::formats::Plain::Text(s),
        }
    }
}

impl ParsedCellValue {
    /// The value that the cell has.
    pub fn value<'b>(&'b self, shared: &'b [String]) -> (v: CellValueRef<'b>)
        ensures
            v@ == self@.value(crate::biff12::texts(shared@)),
    {
        match self {
            ParsedCellValue::Empty => CellValueRef::Empty,
            ParsedCellValue::SharedString(i) => if *i < shared.len() {
                CellValueRef::Text(shared[*i].as_str())
            } else {
                CellValueRef::Empty
            },
            ParsedCellValue::Number(n) => CellValueRef::Number(Number::Double(*n)),
            ParsedCellValue::Boolean(b) => CellValueRef::Boolean(*b),
            ParsedCellValue::DateTime(n) => CellValueRef::DateTime(Number::Double(*n)),
            ParsedCellValue::OwnedText(s) => CellValueRef::Text(s.as_str()),
        }
    }
}

/// What the text of a value stands for, where no double has to be known for it.
pub open spec fn stored_value(text: Seq<char>, cell_type: XlsxCellType) -> Option<Parsed> {
    match cell_type {
        XlsxCellType::SharedString => Some(
            Parsed::SharedString(index_or(vstd::utf8::encode_utf8(text), usize::MAX)),
        ),
        XlsxCellType::Boolean => Some(Parsed::Boolean(text == "1"@ || text == "true"@)),
        _ => None,
    }
}

/// What the text of a value stands for that is to be a number, by the bits of the
/// double that the text stands for, if it does for one.
pub open spec fn numeric_value(
    text: Seq<char>,
    number: Option<u64>,
    cell_type: XlsxCellType,
    style: int,
    info: crate::xlsb_reader::BookInfo,
) -> Result<Parsed, Seq<char>> {
    match number {
        Some(bits) => if style > 0 && crate::xlsb_reader::shows_date(
            info.format_of(style),
            info.date_formats,
        ) {
            Ok(Parsed::DateTime(bits))
        } else {
            Ok(Parsed::Number(bits))
        },
        None => if cell_type == XlsxCellType::Other {
            Ok(Parsed::Text(text))
        } else {
            Err("invalid XLSX numeric value"@)
        },
    }
}

/// Reads the text of a value, where no double has to be known for it.
pub fn parse_stored(text: &str, cell_type: XlsxCellType) -> (r: Option<ParsedCellValue>)
    ensures
        match r {
            Some(v) => stored_value(text@, cell_type) == Some(v@),
            None => stored_value(text@, cell_type) is None,
        },
{
    match cell_type {
        XlsxCellType::SharedString => Some(
            ParsedCellValue::SharedString(parse_index(text.as_bytes(), usize::MAX)),
        ),
        XlsxCellType::Boolean => Some(
            ParsedCellValue::Boolean(
                crate::text::eq_str(text, "1") || crate::text::eq_str(text, "true"),
            ),
        ),
        _ => None,
    }
}

/// Reads the text of a value that is to be a number, given the bits of the double
/// that the text stands for, if it does for one.
pub fn parse_number(
    text: &str,
    number: Option<u64>,
    cell_type: XlsxCellType,
    style: usize,
    formats: &[u16],
    date_formats: &HashSet<u16>,
) -> (r: Result<ParsedCellValue, String>)
    ensures
        ({
            let info = crate::xlsb_reader::BookInfo {
                shared: Seq::empty(),
                formats: formats@,
                date_formats: date_formats@,
            };
            match (r, numeric_value(text@, number, cell_type, style as int, info)) {
                (Ok(v), Ok(expected)) => v@ == expected,
                (Err(fault), Err(message)) => fault@ == message,
                _ => false,
            }
        }),
{
    match number {
        Some(bits) => {
            let format: u16 = if style < formats.len() {
                formats[style]
            } else {
                0
            };
            if style > 0 && is_date_num_fmt(format, date_formats) {
                Ok(ParsedCellValue::DateTime(bits))
            } else {
                Ok(ParsedCellValue::Number(bits))
            }
        },
        None => if cell_type == XlsxCellType::Other {
            Ok(ParsedCellValue::OwnedText(text.to_owned()))
        } else {
            Err("invalid XLSX numeric value".to_owned())
        },
    }
}

} // verus!
