//! Cell values and number formats.

use vstd::prelude::*;
use crate::number::Number;
use crate::text::{chars_of, lower_chars};

verus! {

/// A cell value without a format. The number of a `DateTime` is its serial in
/// the date system of the workbook.
#[derive(Debug, Clone, PartialEq)]
pub enum PrimitiveCellValue {
    Empty,
    Text(String),
    Number(Number),
    Integer(i64),
    Boolean(bool),
    DateTime(Number),
}

/// A cell with an explicit Excel number format.
#[derive(Debug, Clone, PartialEq)]
pub struct FormattedCell {
    pub value: PrimitiveCellValue,
    pub format: String,
}

/// Any cell value: primitive or formatted.
#[derive(Debug, Clone, PartialEq)]
pub enum CellValue {
    Empty,
    Text(String),
    Number(Number),
    Integer(i64),
    Boolean(bool),
    DateTime(Number),
    Formatted(Box<FormattedCell>),
}

/// A borrowed cell value.
#[derive(Debug, Clone, Copy, PartialEq)]
pub enum CellValueRef<'a> {
    Empty,
    Text(&'a str),
    Number(Number),
    Integer(i64),
    Boolean(bool),
    DateTime(Number),
}

/// A cell position and a borrowed value.
#[derive(Debug, Clone, Copy, PartialEq)]
pub struct CellRef<'a> {
    pub row: u32,
    pub column: u32,
    pub value: CellValueRef<'a>,
}

/// What a cell value stands for, its format left aside.
pub enum Plain {
    Empty,
    Text(Seq<char>),
    Number(Number),
    Integer(i64),
    Boolean(bool),
    DateTime(Number),
}

/// What a cell stands for.
pub struct Cell {
    pub value: Plain,
    pub format: Option<Seq<char>>,
}

impl View for PrimitiveCellValue {
    type V = Plain;

    open spec fn view(&self) -> Plain {
        match *self {
            PrimitiveCellValue::Empty => Plain::Empty,
            PrimitiveCellValue::Text(s) => Plain::Text(s@),
            PrimitiveCellValue::Number(n) => Plain::Number(n),
            PrimitiveCellValue::Integer(i) => Plain::Integer(i),
            PrimitiveCellValue::Boolean(b) => Plain::Boolean(b),
            PrimitiveCellValue::DateTime(d) => Plain::DateTime(d),
        }
    }
}

impl View for CellValue {
    type V = Cell;

    open spec fn view(&self) -> Cell {
        match *self {
            CellValue::Empty => Cell { value: Plain::Empty, format: None },
            CellValue::Text(s) => Cell { value: Plain::Text(s@), format: None },
            CellValue::Number(n) => Cell { value: Plain::Number(n), format: None },
            CellValue::Integer(i) => Cell { value: Plain::Integer(i), format: None },
            CellValue::Boolean(b) => Cell { value: Plain::Boolean(b), format: None },
            CellValue::DateTime(d) => Cell { value: Plain::DateTime(d), format: None },
            CellValue::Formatted(f) => Cell { value: f.value@, format: Some(f.format@) },
        }
    }
}

impl<'a> View for CellValueRef<'a> {
    type V = Plain;

    open spec fn view(&self) -> Plain {
        match *self {
            CellValueRef::Empty => Plain::Empty,
            CellValueRef::Text(s) => Plain::Text(s@),
            CellValueRef::Number(n) => Plain::Number(n),
            CellValueRef::Integer(i) => Plain::Integer(i),
            CellValueRef::Boolean(b) => Plain::Boolean(b),
            CellValueRef::DateTime(d) => Plain::DateTime(d),
        }
    }
}

/// The cells of a row.
pub open spec fn row_cells(row: Seq<CellValue>) -> Seq<Cell> {
    Seq::new(row.len(), |i: int| row[i]@)
}

/// The rows of a sheet.
pub open spec fn sheet_cells(rows: Seq<Vec<CellValue>>) -> Seq<Seq<Cell>> {
    Seq::new(rows.len(), |i: int| row_cells(rows[i]@))
}

/// The table holds the images of the numbers in a row.
pub open spec fn knows_row(numbers: crate::number::NumberTable, row: Seq<Cell>) -> bool {
    forall|i: int|
        0 <= i < row.len() ==> match (#[trigger] row[i]).value {
            Plain::Number(n) => numbers.image(n) is Some,
            Plain::DateTime(n) => numbers.image(n) is Some,
            _ => true,
        }
}

/// The table holds the images of the numbers in the rows of a sheet.
pub open spec fn knows_sheet(numbers: crate::number::NumberTable, rows: Seq<Seq<Cell>>) -> bool {
    forall|i: int| 0 <= i < rows.len() ==> knows_row(numbers, #[trigger] rows[i])
}

impl<'a> CellValueRef<'a> {
    /// Converts the borrowed value into an owned one.
    pub fn to_owned(self) -> (r: CellValue)
        ensures
            r@ == (Cell { value: self@, format: None }),
            !(r is Formatted),
    {
        match self {
            CellValueRef::Empty => CellValue::Empty,
            CellValueRef::Text(value) => CellValue::Text(str::to_owned(value)),
            CellValueRef::Number(value) => CellValue::Number(value),
            CellValueRef::Integer(value) => CellValue::Integer(value),
            CellValueRef::Boolean(value) => CellValue::Boolean(value),
            CellValueRef::DateTime(value) => CellValue::DateTime(value),
        }
    }
}

impl CellValue {
    pub fn empty() -> (r: Self)
        ensures
            r is Empty,
    {
        CellValue::Empty
    }

    /// The value under a new format. A format that it already has is replaced.
    pub fn formatted(value: CellValue, format: String) -> (r: Self)
        ensures
            r is Formatted,
            r@ == (Cell { value: value@.value, format: Some(format@) }),
    {
        let primitive = match value {
            CellValue::Formatted(f) => f.value,
            CellValue::Empty => PrimitiveCellValue::Empty,
            CellValue::Text(s) => PrimitiveCellValue::Text(s),
            CellValue::Number(n) => PrimitiveCellValue::Number(n),
            CellValue::Integer(i) => PrimitiveCellValue::Integer(i),
            CellValue::Boolean(b) => PrimitiveCellValue::Boolean(b),
            CellValue::DateTime(d) => PrimitiveCellValue::DateTime(d),
        };
        CellValue::Formatted(Box::new(FormattedCell { value: primitive, format }))
    }
}

impl vstd::std_specs::convert::FromSpecImpl<&str> for CellValue {
    open spec fn obeys_from_spec() -> bool {
        false
    }

    open spec fn from_spec(s: &str) -> CellValue {
        CellValue::Empty
    }
}

impl From<&str> for CellValue {
    fn from(s: &str) -> (r: Self)
        ensures
            r@ == (Cell { value: Plain::Text(s@), format: None }),
    {
        CellValue::Text(str::to_owned(s))
    }
}

impl vstd::std_specs::convert::FromSpecImpl<String> for CellValue {
    open spec fn obeys_from_spec() -> bool {
        true
    }

    open spec fn from_spec(s: String) -> CellValue {
        CellValue::Text(s)
    }
}

impl From<String> for CellValue {
    fn from(s: String) -> (r: Self) {
        CellValue::Text(s)
    }
}

impl vstd::std_specs::convert::FromSpecImpl<i64> for CellValue {
    open spec fn obeys_from_spec() -> bool {
        true
    }

    open spec fn from_spec(n: i64) -> CellValue {
        CellValue::Integer(n)
    }
}

impl From<i64> for CellValue {
    fn from(n: i64) -> (r: Self) {
        CellValue::Integer(n)
    }
}

impl vstd::std_specs::convert::FromSpecImpl<i32> for CellValue {
    open spec fn obeys_from_spec() -> bool {
        true
    }

    open spec fn from_spec(n: i32) -> CellValue {
        CellValue::Integer(n as i64)
    }
}

impl From<i32> for CellValue {
    fn from(n: i32) -> (r: Self) {
        CellValue::Integer(n as i64)
    }
}

impl vstd::std_specs::convert::FromSpecImpl<bool> for CellValue {
    open spec fn obeys_from_spec() -> bool {
        true
    }

    open spec fn from_spec(b: bool) -> CellValue {
        CellValue::Boolean(b)
    }
}

impl From<bool> for CellValue {
    fn from(b: bool) -> (r: Self) {
        CellValue::Boolean(b)
    }
}

/// True when the value carries an explicit format.
pub fn is_formatted_cell(val: &CellValue) -> (b: bool)
    ensures
        b == (val@.format is Some),
{
    match val {
        CellValue::Formatted(_) => true,
        _ => false,
    }
}

/// Strips the format, returning the primitive payload.
pub fn unwrap_cell(val: &CellValue) -> (r: CellValue)
    ensures
        r@ == (Cell { value: val@.value, format: None }),
{
    borrow_cell(val).to_owned()
}

/// Borrows the primitive value.
pub fn borrow_cell(val: &CellValue) -> (r: CellValueRef<'_>)
    ensures
        r@ == val@.value,
{
    let primitive = match val {
        CellValue::Formatted(formatted) => &formatted.value,
        CellValue::Empty => return CellValueRef::Empty,
        CellValue::Text(value) => return CellValueRef::Text(value.as_str()),
        CellValue::Number(value) => return CellValueRef::Number(*value),
        CellValue::Integer(value) => return CellValueRef::Integer(*value),
        CellValue::Boolean(value) => return CellValueRef::Boolean(*value),
        CellValue::DateTime(value) => return CellValueRef::DateTime(*value),
    };
    match primitive {
        PrimitiveCellValue::Empty => CellValueRef::Empty,
        PrimitiveCellValue::Text(value) => CellValueRef::Text(value.as_str()),
        PrimitiveCellValue::Number(value) => CellValueRef::Number(*value),
        PrimitiveCellValue::Integer(value) => CellValueRef::Integer(*value),
        PrimitiveCellValue::Boolean(value) => CellValueRef::Boolean(*value),
        PrimitiveCellValue::DateTime(value) => CellValueRef::DateTime(*value),
    }
}

/// The explicit format, if any.
pub fn get_format(val: &CellValue) -> (r: Option<&str>)
    ensures
        match r {
            Some(format) => val@.format == Some(format@),
            None => val@.format is None,
        },
{
    match val {
        CellValue::Formatted(f) => Some(f.format.as_str()),
        _ => None,
    }
}

/// A copy of a cell.
pub fn copy_cell(val: &CellValue) -> (r: CellValue)
    ensures
        r@ == val@,
{
    match get_format(val) {
        Some(format) => CellValue::formatted(unwrap_cell(val), str::to_owned(format)),
        None => unwrap_cell(val),
    }
}

/// How far a number format has been read: inside a quoted literal, behind a
/// backslash, or inside brackets with the text read there.
pub struct FormatScan {
    pub quoted: bool,
    pub escaped: bool,
    pub in_bracket: bool,
    pub bracket: Seq<char>,
}

/// The start of a number format.
pub open spec fn format_start() -> FormatScan {
    FormatScan { quoted: false, escaped: false, in_bracket: false, bracket: Seq::empty() }
}

/// The letters that ask for a part of a date or a time.
pub open spec fn is_date_letter(c: char) -> bool {
    c == 'y' || c == 'm' || c == 'd' || c == 'h' || c == 's'
}

/// The next character of a number format: the scan behind it, or `None` when it
/// shows that the format is one of a date or a time.
pub open spec fn format_step(scan: FormatScan, c: char) -> Option<FormatScan> {
    if scan.escaped {
        Some(FormatScan { escaped: false, ..scan })
    } else if c == '\\' && !scan.quoted {
        Some(FormatScan { escaped: true, ..scan })
    } else if c == '"' {
        Some(FormatScan { quoted: !scan.quoted, ..scan })
    } else if scan.quoted {
        Some(scan)
    } else if c == '[' {
        Some(FormatScan { in_bracket: true, bracket: Seq::empty(), ..scan })
    } else if c == ']' && scan.in_bracket {
        if scan.bracket.len() == 1 && is_date_letter(scan.bracket[0]) {
            None
        } else {
            Some(FormatScan { in_bracket: false, ..scan })
        }
    } else if scan.in_bracket {
        Some(FormatScan { bracket: scan.bracket.push(c), ..scan })
    } else if is_date_letter(c) {
        None
    } else {
        Some(scan)
    }
}

/// Whether the characters from here on show that the format is one of a date or
/// a time.
pub open spec fn shows_date(scan: FormatScan, code: Seq<char>) -> bool
    decreases code.len(),
{
    if code.len() == 0 {
        false
    } else {
        match format_step(scan, code[0]) {
            None => true,
            Some(next) => shows_date(next, code.skip(1)),
        }
    }
}

/// A number format is one of a date or a time when, case aside, a date letter
/// stands in it outside quoted literals, escapes and brackets, or alone in
/// brackets.
pub open spec fn is_date_code(code: Seq<char>) -> bool {
    shows_date(format_start(), crate::text::lowered(code))
}

/// Detects date and time tokens in an Excel number format. Quoted literals and
/// escaped characters such as `"mm"` and `\m` do not count.
pub fn is_date_format_code(code: &str) -> (b: bool)
    ensures
        b == is_date_code(code@),
{
    let chars = chars_of(code);
    let lower = lower_chars(&chars);
    let mut quoted = false;
    let mut escaped = false;
    let mut in_bracket = false;
    let mut bracket: Vec<char> = Vec::new();
    let mut i: usize = 0;
    assert(lower@.skip(0) =~= lower@);
    assert(format_start().bracket =~= bracket@);
    while i < lower.len()
        invariant
            i <= lower.len(),
            is_date_code(code@) == shows_date(
                FormatScan { quoted, escaped, in_bracket, bracket: bracket@ },
                lower@.skip(i as int),
            ),
        decreases lower.len() - i,
    {
        let ch = lower[i];
        assert(lower@.skip(i as int)[0] == ch);
        assert(lower@.skip(i as int).skip(1) =~= lower@.skip(i + 1));
        i += 1;
        if escaped {
            escaped = false;
        } else if ch == '\\' && !quoted {
            escaped = true;
        } else if ch == '"' {
            quoted = !quoted;
        } else if quoted {
        } else if ch == '[' {
            in_bracket = true;
            bracket.clear();
        } else if ch == ']' && in_bracket {
            if bracket.len() == 1 && date_letter(bracket[0]) {
                return true;
            }
            in_bracket = false;
        } else if in_bracket {
            bracket.push(ch);
        } else if date_letter(ch) {
            return true;
        }
    }
    false
}

fn date_letter(c: char) -> (b: bool)
    ensures
        b == is_date_letter(c),
{
    c == 'y' || c == 'm' || c == 'd' || c == 'h' || c == 's'
}

proof fn lemma_quoted_run(scan: FormatScan, literal: Seq<char>, rest: Seq<char>)
    requires
        scan.quoted,
        !scan.escaped,
        forall|i: int| 0 <= i < literal.len() ==> literal[i] != '"',
    ensures
        shows_date(scan, literal + rest) == shows_date(scan, rest),
    decreases literal.len(),
{
    if literal.len() == 0 {
        assert(literal + rest =~= rest);
    } else {
        assert((literal + rest).skip(1) =~= literal.skip(1) + rest);
        assert forall|i: int| 0 <= i < literal.skip(1).len() implies literal.skip(1)[i] != '"' by {
            assert(literal.skip(1)[i] == literal[i + 1]);
        }
        lemma_quoted_run(scan, literal.skip(1), rest);
    }
}

/// A quoted literal says nothing of dates: where it stands unescaped, the rest of
/// the format decides alone.
pub proof fn law_quoted_literal_is_ignored(scan: FormatScan, literal: Seq<char>, rest: Seq<char>)
    requires
        !scan.quoted,
        !scan.escaped,
        forall|i: int| 0 <= i < literal.len() ==> literal[i] != '"',
    ensures
        shows_date(scan, seq!['"'] + literal + seq!['"'] + rest) == shows_date(scan, rest),
{
    let all = seq!['"'] + literal + seq!['"'] + rest;
    let inside = FormatScan { quoted: true, ..scan };
    let tail = seq!['"'] + rest;
    assert(all.skip(1) =~= literal + tail);
    lemma_quoted_run(inside, literal, tail);
    assert(tail.skip(1) =~= rest);
}

/// An escaped character says nothing of dates.
pub proof fn law_escaped_character_is_ignored(scan: FormatScan, c: char, rest: Seq<char>)
    requires
        !scan.quoted,
        !scan.escaped,
    ensures
        shows_date(scan, seq!['\\', c] + rest) == shows_date(scan, rest),
{
    let all = seq!['\\', c] + rest;
    let behind = FormatScan { escaped: true, ..scan };
    assert(all.skip(1).skip(1) =~= rest);
    assert(shows_date(scan, all) == shows_date(behind, all.skip(1)));
}

/// Characters inside brackets are only collected.
proof fn lemma_bracket_run(scan: FormatScan, name: Seq<char>, rest: Seq<char>)
    requires
        scan.in_bracket,
        !scan.quoted,
        !scan.escaped,
        forall|i: int|
            0 <= i < name.len() ==> #[trigger] name[i] != '[' && name[i] != ']' && name[i] != '"'
                && name[i] != '\\',
    ensures
        shows_date(scan, name + rest) == shows_date(
            FormatScan { bracket: scan.bracket + name, ..scan },
            rest,
        ),
    decreases name.len(),
{
    if name.len() == 0 {
        assert(name + rest =~= rest);
        assert(scan.bracket + name =~= scan.bracket);
    } else {
        let more = name.skip(1);
        let next = FormatScan { bracket: scan.bracket.push(name[0]), ..scan };
        assert((name + rest)[0] == name[0]);
        assert((name + rest).skip(1) =~= more + rest);
        assert forall|i: int| 0 <= i < more.len() implies #[trigger] more[i] != '[' && more[i]
            != ']' && more[i] != '"' && more[i] != '\\' by {
            assert(more[i] == name[i + 1]);
        }
        lemma_bracket_run(next, more, rest);
        assert(next.bracket + more =~= scan.bracket + name);
    }
}

/// What a scan has collected in brackets that are closed says nothing.
proof fn lemma_bracket_forgotten(scan: FormatScan, bracket: Seq<char>, rest: Seq<char>)
    requires
        !scan.in_bracket,
    ensures
        shows_date(FormatScan { bracket, ..scan }, rest) == shows_date(scan, rest),
    decreases rest.len(),
{
    if rest.len() > 0 {
        if let Some(next) = format_step(scan, rest[0]) {
            if !next.in_bracket {
                lemma_bracket_forgotten(next, bracket, rest.skip(1));
            }
        }
    }
}

/// A section in brackets that is not a single date letter, such as a colour, a
/// condition or a currency, says nothing of dates: the rest of the format decides
/// alone.
pub proof fn law_bracketed_section_is_ignored(
    scan: FormatScan,
    name: Seq<char>,
    rest: Seq<char>,
)
    requires
        !scan.quoted,
        !scan.escaped,
        !scan.in_bracket,
        forall|i: int|
            0 <= i < name.len() ==> #[trigger] name[i] != '[' && name[i] != ']' && name[i] != '"'
                && name[i] != '\\',
        name.len() != 1 || (name[0] != 'y' && name[0] != 'm' && name[0] != 'd' && name[0] != 'h'
            && name[0] != 's'),
    ensures
        shows_date(scan, seq!['['] + name + seq![']'] + rest) == shows_date(scan, rest),
{
    let all = seq!['['] + name + seq![']'] + rest;
    let inside = FormatScan { in_bracket: true, bracket: Seq::empty(), ..scan };
    let tail = seq![']'] + rest;
    assert(all.skip(1) =~= name + tail);
    lemma_bracket_run(inside, name, tail);
    assert(Seq::<char>::empty() + name =~= name);
    assert(tail.skip(1) =~= rest);
    lemma_bracket_forgotten(scan, name, rest);
}

/// A single date letter in brackets, which counts hours, minutes or seconds beyond
/// their usual limits, shows a time.
pub proof fn law_bracketed_date_letter_is_a_date(scan: FormatScan, c: char, rest: Seq<char>)
    requires
        !scan.quoted,
        !scan.escaped,
        !scan.in_bracket,
        c == 'y' || c == 'm' || c == 'd' || c == 'h' || c == 's',
    ensures
        shows_date(scan, seq!['[', c, ']'] + rest),
{
    let all = seq!['[', c, ']'] + rest;
    let inside = FormatScan { in_bracket: true, bracket: Seq::empty(), ..scan };
    assert(all.skip(1)[0] == c);
    assert(all.skip(1).skip(1)[0] == ']');
    assert(shows_date(scan, all) == shows_date(inside, all.skip(1)));
    reveal_with_fuel(shows_date, 3);
}

/// A date letter outside quoted literals, escapes and brackets shows a date or a time,
/// and any other character but those that begin a literal, an escape or a section in
/// brackets says nothing of dates.
pub proof fn law_date_letter_is_a_date(scan: FormatScan, c: char, rest: Seq<char>)
    requires
        !scan.quoted,
        !scan.escaped,
        !scan.in_bracket,
        c != '"' && c != '\\' && c != '[',
    ensures
        shows_date(scan, seq![c] + rest) == (c == 'y' || c == 'm' || c == 'd' || c == 'h' || c
            == 's' || shows_date(scan, rest)),
{
    assert((seq![c] + rest).skip(1) =~= rest);
}

/// Capitals and small letters count as equal in a number format.
pub proof fn law_case_says_nothing(a: Seq<char>, b: Seq<char>)
    requires
        a.len() == b.len(),
        forall|i: int|
            0 <= i < a.len() ==> (#[trigger] a[i] as u32) < 128 && (b[i] as u32) < 128 && (a[i]
                == b[i] || ('A' <= a[i] <= 'Z' && b[i] as u32 == a[i] as u32 + 32)),
    ensures
        is_date_code(a) == is_date_code(b),
{
    assert forall|i: int| 0 <= i < b.len() implies (#[trigger] b[i] as u32) < 128 by {
        assert((a[i] as u32) < 128);
    }
    crate::text::lemma_plain_lowered(a);
    crate::text::lemma_plain_lowered(b);
    assert forall|i: int| 0 <= i < a.len() implies crate::text::lowered(a)[i]
        == crate::text::lowered(b)[i] by {
        assert((a[i] as u32) < 128);
    }
    assert(crate::text::lowered(a) =~= crate::text::lowered(b));
}

/// An empty number format is none of a date, and a format is read from outside
/// literals, escapes and brackets on.
pub proof fn law_format_starts_outside(code: Seq<char>)
    requires
        forall|i: int|
            0 <= i < code.len() ==> (#[trigger] code[i] as u32) < 128 && !('A' <= code[i] <= 'Z'),
    ensures
        exists|scan: FormatScan|
            !scan.quoted && !scan.escaped && !scan.in_bracket && is_date_code(code)
                == #[trigger] shows_date(scan, code),
        code.len() == 0 ==> !is_date_code(code),
{
    crate::text::lemma_plain_lowered(code);
    assert(crate::text::lowered(code) =~= code);
    assert(is_date_code(code) == shows_date(format_start(), code));
}

/// Built-in Excel number formats.
pub struct F;

impl F {
    pub const THOUSANDS_SEP: &'static str = "#,##0";

    pub const CURRENCY_PLN: &'static str = "#,##0.00 \"z\u{142}\"";

    pub const CURRENCY_EUR: &'static str = "#,##0.00 \u{20ac}";

    pub const PERCENTAGE: &'static str = "0%";

    pub const SCIENTIFIC: &'static str = "0.00E+00";

    pub const TWO_DECIMALS: &'static str = "#,##0.00";

    pub const TEXT: &'static str = "@";

    pub const LEADING_ZEROS: &'static str = "000000000";

    pub const DATE_SHORT: &'static str = "dd.mm.yyyy";

    pub const DATE_LONG: &'static str = "d mmmm yyyy";

    pub const DATE_DAY_MONTH_YEAR: &'static str = "dd-mm-yyyy";

    pub const DATE_ISO: &'static str = "yyyy-mm-dd";

    pub const DATE_MONTH_YEAR: &'static str = "mmmm yyyy";

    pub const DATE_WEEKDAY: &'static str = "dddd, d mmmm yyyy";

    pub const DATE_DAY_MONTH: &'static str = "d mmmm";

    pub const DATE_YEAR_ONLY: &'static str = "yyyy";

    pub const DATETIME_SHORT: &'static str = "dd.mm.yyyy hh:mm";

    pub const DATETIME_LONG: &'static str = "d mmmm yyyy hh:mm:ss";

    pub const TIME_HH_MM: &'static str = "hh:mm";

    pub const TIME_HH_MM_SS: &'static str = "hh:mm:ss";

    pub const TIME_12H: &'static str = "h:mm AM/PM";

    pub const DATETIME_24H: &'static str = "dd.mm.yyyy hh:mm:ss";

    pub const DATETIME_ISO: &'static str = "yyyy-mm-dd\"T\"hh:mm:ss";

    pub const TIME_MS: &'static str = "hh:mm:ss.000";
}

} // verus!
