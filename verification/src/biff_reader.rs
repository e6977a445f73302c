//! A forward-only BIFF12 decoder.

use vstd::prelude::*;
use crate::biff12::{decode_vlq, read_u32_le, VlqFault};
use crate::error::{invalid, SpreadsheetError, SpreadsheetResult};
use crate::formats::is_date_format_code;
use crate::number::{double_bits, Number};
use crate::utf16::decode_utf16le;
use std::collections::HashSet;

verus! {

/// The kinds of cell that the decoder tells apart.
#[derive(Debug, Clone, Copy, PartialEq, Eq, Structural)]
pub enum BiffCellType {
    Blank,
    SharedString,
    Number,
    Bool,
    Str,
}

impl BiffCellType {
    /// The number that stands for the kind of a cell.
    pub fn code(self) -> (n: u8)
        ensures
            n == (match self {
                BiffCellType::Blank => 0u8,
                BiffCellType::SharedString => 2u8,
                BiffCellType::Number => 3u8,
                BiffCellType::Bool => 4u8,
                BiffCellType::Str => 5u8,
            }),
    {
        match self {
            BiffCellType::Blank => 0,
            BiffCellType::SharedString => 2,
            BiffCellType::Number => 3,
            BiffCellType::Bool => 4,
            BiffCellType::Str => 5,
        }
    }
}

/// A decoder at some point of a buffer of records, with what the record read
/// last has left in it.
pub struct BiffReaderWriter<'a> {
    pub buffer: &'a [u8],
    pub pos: usize,
    pub is_sheet: bool,
    pub workbook_id: u32,
    pub rec_id: Option<String>,
    pub workbook_name: Option<String>,
    pub in_cell_xf: bool,
    pub in_number_format: bool,
    pub shared_string_value: Option<String>,
    pub shared_string_unique_count: u32,
    pub cell_type: u8,
    pub int_value: u32,
    pub double_val: Number,
    pub bool_value: bool,
    pub string_value: Option<String>,
    pub column_num: i64,
    pub xf_index: usize,
    pub read_cell: bool,
    pub row_index: i32,
    pub record_start: usize,
    pub record_end: usize,
    pub xf_index_to_num_fmt_id: Vec<u16>,
    pub custom_num_fmts: HashSet<u16>,
}

/// What a decoder stands for.
pub struct Biff {
    pub buffer: Seq<u8>,
    pub pos: int,
    pub is_sheet: bool,
    pub workbook_id: u32,
    pub rec_id: Option<Seq<char>>,
    pub workbook_name: Option<Seq<char>>,
    pub in_cell_xf: bool,
    pub in_number_format: bool,
    pub shared_string_value: Option<Seq<char>>,
    pub shared_string_unique_count: u32,
    pub cell_type: u8,
    pub int_value: u32,
    pub double_val: Number,
    pub bool_value: bool,
    pub string_value: Option<Seq<char>>,
    pub column_num: int,
    pub xf_index: int,
    pub read_cell: bool,
    pub row_index: int,
    pub record_start: int,
    pub record_end: int,
    pub xf_index_to_num_fmt_id: Seq<u16>,
    pub custom_num_fmts: Set<u16>,
}

/// The text of an optional string.
pub open spec fn text_of(s: Option<String>) -> Option<Seq<char>> {
    match s {
        Some(s) => Some(s@),
        None => None,
    }
}

impl<'a> View for BiffReaderWriter<'a> {
    type V = Biff;

    open spec fn view(&self) -> Biff {
        Biff {
            buffer: self.buffer@,
            pos: self.pos as int,
            is_sheet: self.is_sheet,
            workbook_id: self.workbook_id,
            rec_id: text_of(self.rec_id),
            workbook_name: text_of(self.workbook_name),
            in_cell_xf: self.in_cell_xf,
            in_number_format: self.in_number_format,
            shared_string_value: text_of(self.shared_string_value),
            shared_string_unique_count: self.shared_string_unique_count,
            cell_type: self.cell_type,
            int_value: self.int_value,
            double_val: self.double_val,
            bool_value: self.bool_value,
            string_value: text_of(self.string_value),
            column_num: self.column_num as int,
            xf_index: self.xf_index as int,
            read_cell: self.read_cell,
            row_index: self.row_index as int,
            record_start: self.record_start as int,
            record_end: self.record_end as int,
            xf_index_to_num_fmt_id: self.xf_index_to_num_fmt_id@,
            custom_num_fmts: self.custom_num_fmts@,
        }
    }
}

/// A decoder at the start of a buffer.
pub open spec fn decoder_at_start(buffer: Seq<u8>) -> Biff {
    Biff {
        buffer,
        pos: 0,
        is_sheet: false,
        workbook_id: 0,
        rec_id: None,
        workbook_name: None,
        in_cell_xf: false,
        in_number_format: false,
        shared_string_value: None,
        shared_string_unique_count: 0,
        cell_type: 0,
        int_value: 0,
        double_val: Number::Double(0),
        bool_value: false,
        string_value: None,
        column_num: -1,
        xf_index: 0,
        read_cell: false,
        row_index: -1,
        record_start: 0,
        record_end: 0,
        xf_index_to_num_fmt_id: Seq::empty(),
        custom_num_fmts: Set::empty(),
    }
}

/// What one step of a decoder leads to: the decoder behind it, and its result.
pub struct Step<T> {
    pub after: Biff,
    pub result: Result<T, Seq<char>>,
}

impl Biff {
    /// The position and the record lie in the buffer.
    pub open spec fn wf(self) -> bool {
        &&& 0 <= self.pos <= self.buffer.len() <= usize::MAX
        &&& 0 <= self.record_start <= self.record_end <= self.buffer.len()
    }

    /// The position behind bytes that should have held a number.
    pub open spec fn behind_fault(self, at: int, fault: VlqFault) -> int {
        if fault == VlqFault::PastEnd {
            self.buffer.len() as int
        } else {
            at + 5
        }
    }

    /// Enters the next record and gives its id, `None` at the end of the buffer.
    pub open spec fn begin(self) -> Step<Option<u32>> {
        if self.pos >= self.buffer.len() {
            Step { after: self, result: Ok(None) }
        } else {
            match crate::biff12::vlq_at(self.buffer, self.pos, 0) {
                Err(fault) => Step {
                    after: Biff { pos: self.behind_fault(self.pos, fault), ..self },
                    result: Err(biff_vlq_message(fault)),
                },
                Ok((id, p1)) => if p1 >= self.buffer.len() {
                    Step {
                        after: Biff { pos: p1, ..self },
                        result: Err("BIFF12 record length is truncated"@),
                    }
                } else {
                    match crate::biff12::vlq_at(self.buffer, p1, 0) {
                        Err(fault) => Step {
                            after: Biff { pos: self.behind_fault(p1, fault), ..self },
                            result: Err(biff_vlq_message(fault)),
                        },
                        Ok((len, p2)) => if p2 + len > usize::MAX {
                            Step {
                                after: Biff { pos: p2, ..self },
                                result: Err("BIFF12 record length overflows"@),
                            }
                        } else if p2 + len > self.buffer.len() {
                            Step {
                                after: Biff { pos: p2, ..self },
                                result: Err("BIFF12 record payload is truncated"@),
                            }
                        } else {
                            Step {
                                after: Biff {
                                    pos: p2 + len,
                                    record_start: p2,
                                    record_end: p2 + len,
                                    ..self
                                },
                                result: Ok(Some(id as u32)),
                            }
                        },
                    }
                },
            }
        }
    }

    /// Where a field of the record starts in the buffer.
    pub open spec fn field(self, offset: int, width: int) -> Result<int, Seq<char>> {
        if self.record_start + offset > usize::MAX {
            Err("BIFF12 field offset overflows"@)
        } else if self.record_start + offset + width > usize::MAX {
            Err("BIFF12 field width overflows"@)
        } else if self.record_start + offset + width > self.record_end {
            Err("BIFF12 record payload is truncated"@)
        } else {
            Ok(self.record_start + offset)
        }
    }

    /// The unsigned 32-bit field at an offset of the record.
    pub open spec fn dword(self, offset: int) -> Result<u32, Seq<char>> {
        match self.field(offset, 4) {
            Err(message) => Err(message),
            Ok(at) => Ok(crate::biff12::le_u32_at(self.buffer, at) as u32),
        }
    }

    /// The unsigned 16-bit field at an offset of the record.
    pub open spec fn word(self, offset: int) -> Result<u16, Seq<char>> {
        match self.field(offset, 2) {
            Err(message) => Err(message),
            Ok(at) => Ok((self.buffer[at] + 256 * self.buffer[at + 1]) as u16),
        }
    }

    /// The byte at an offset of the record.
    pub open spec fn byte(self, offset: int) -> Result<u8, Seq<char>> {
        match self.field(offset, 1) {
            Err(message) => Err(message),
            Ok(at) => Ok(self.buffer[at]),
        }
    }

    /// The bits of the double at an offset of the record.
    pub open spec fn double(self, offset: int) -> Result<u64, Seq<char>> {
        match self.field(offset, 8) {
            Err(message) => Err(message),
            Ok(at) => Ok(
                (crate::biff12::le_u32_at(self.buffer, at) + 0x1_0000_0000
                    * crate::biff12::le_u32_at(self.buffer, at + 4)) as u64,
            ),
        }
    }

    /// The text of `length` UTF-16 code units at an offset of the record.
    pub open spec fn string(self, offset: int, length: int) -> Result<Seq<char>, Seq<char>> {
        if 2 * length > usize::MAX {
            Err("BIFF12 string length overflows"@)
        } else {
            match self.field(offset, 2 * length) {
                Err(message) => Err(message),
                Ok(at) => Ok(
                    crate::utf16::decode_units(
                        crate::utf16::le_units(self.buffer.subrange(at, at + 2 * length)),
                    ),
                ),
            }
        }
    }

    /// The optional text at an offset of the record, and the offset behind it. A
    /// length of 2^32 - 1 stands for no text.
    pub open spec fn nullable_string(self, offset: int) -> Result<
        (Option<Seq<char>>, int),
        Seq<char>,
    > {
        match self.dword(offset) {
            Err(message) => Err(message),
            Ok(length) => if length == 0xffff_ffff {
                Ok((None, offset + 4))
            } else {
                match self.string(offset + 4, length as int) {
                    Err(message) => Err(message),
                    Ok(text) => Ok((Some(text), offset + 4 + 2 * length)),
                }
            },
        }
    }

    /// A failed step.
    pub open spec fn fails<T>(self, message: Seq<char>) -> Step<T> {
        Step { after: self, result: Err(message) }
    }

    /// The next record of `xl/workbook.bin`. A sheet record (0x9c) fills the
    /// sheet's id, relationship id and name.
    pub open spec fn workbook_step(self) -> Step<bool> {
        match self.begin() {
            Step { after, result: Err(message) } => after.fails(message),
            Step { after, result: Ok(None) } => Step { after, result: Ok(false) },
            Step { after, result: Ok(Some(id)) } => {
                let s = Biff { is_sheet: false, ..after };
                if id == 0x9c {
                    s.sheet_record()
                } else {
                    Step { after: s, result: Ok(true) }
                }
            },
        }
    }

    /// The fields of a sheet record.
    pub open spec fn sheet_record(self) -> Step<bool> {
        match self.dword(4) {
            Err(message) => self.fails(message),
            Ok(workbook_id) => {
                let s = Biff { workbook_id, ..self };
                match s.nullable_string(8) {
                    Err(message) => s.fails(message),
                    Ok((rec_id, offset)) => {
                        let t = Biff { rec_id, ..s };
                        match t.dword(offset) {
                            Err(message) => t.fails(message),
                            Ok(length) => match t.string(offset + 4, length as int) {
                                Err(message) => t.fails(message),
                                Ok(name) => Step {
                                    after: Biff { workbook_name: Some(name), is_sheet: true, ..t },
                                    result: Ok(true),
                                },
                            },
                        }
                    },
                }
            },
        }
    }

    /// The next record of `xl/sharedStrings.bin`. An item (0x13) gives its text,
    /// the header (0x9f) its count of distinct texts.
    pub open spec fn shared_strings_step(self) -> Step<bool> {
        match self.begin() {
            Step { after, result: Err(message) } => after.fails(message),
            Step { after, result: Ok(None) } => Step { after, result: Ok(false) },
            Step { after, result: Ok(Some(id)) } => {
                let s = Biff { shared_string_value: None, ..after };
                if id == 0x13 {
                    match s.dword(1) {
                        Err(message) => s.fails(message),
                        Ok(length) => match s.string(5, length as int) {
                            Err(message) => s.fails(message),
                            Ok(text) => Step {
                                after: Biff { shared_string_value: Some(text), ..s },
                                result: Ok(true),
                            },
                        },
                    }
                } else if id == 0x9f {
                    match s.dword(4) {
                        Err(message) => s.fails(message),
                        Ok(count) => Step {
                            after: Biff { shared_string_unique_count: count, ..s },
                            result: Ok(true),
                        },
                    }
                } else {
                    Step { after: s, result: Ok(true) }
                }
            },
        }
    }

    /// The next record of `xl/styles.bin`. A cell style (0x2f) between 0x269 and
    /// 0x26a adds its number format id, a number format (0x2c) between 0x267 and
    /// 0x268 that shows dates adds its id to the date formats.
    pub open spec fn styles_step(self) -> Step<bool> {
        match self.begin() {
            Step { after, result: Err(message) } => after.fails(message),
            Step { after, result: Ok(None) } => Step { after, result: Ok(false) },
            Step { after, result: Ok(Some(id)) } => if id == 0x269 {
                Step { after: Biff { in_cell_xf: true, ..after }, result: Ok(true) }
            } else if id == 0x26a {
                Step { after: Biff { in_cell_xf: false, ..after }, result: Ok(true) }
            } else if id == 0x267 {
                Step { after: Biff { in_number_format: true, ..after }, result: Ok(true) }
            } else if id == 0x268 {
                Step { after: Biff { in_number_format: false, ..after }, result: Ok(true) }
            } else if id == 0x2f && after.in_cell_xf {
                match after.word(2) {
                    Err(message) => after.fails(message),
                    Ok(format) => Step {
                        after: Biff {
                            xf_index_to_num_fmt_id: after.xf_index_to_num_fmt_id.push(format),
                            ..after
                        },
                        result: Ok(true),
                    },
                }
            } else if id == 0x2c && after.in_number_format {
                after.format_record()
            } else {
                Step { after, result: Ok(true) }
            },
        }
    }

    /// The fields of a number format record.
    pub open spec fn format_record(self) -> Step<bool> {
        match self.word(0) {
            Err(message) => self.fails(message),
            Ok(format) => match self.dword(2) {
                Err(message) => self.fails(message),
                Ok(length) => match self.string(6, length as int) {
                    Err(message) => self.fails(message),
                    Ok(code) => Step {
                        after: if crate::formats::is_date_code(code) {
                            Biff { custom_num_fmts: self.custom_num_fmts.insert(format), ..self }
                        } else {
                            self
                        },
                        result: Ok(true),
                    },
                },
            },
        }
    }

    /// What the id of a worksheet record and its payload put into the decoder: a
    /// row header (0) its row, a cell its kind and its value.
    pub open spec fn worksheet_payload(self, id: u32) -> Step<bool> {
        if id == 0 {
            match self.dword(0) {
                Err(message) => self.fails(message),
                Ok(row) => Step {
                    after: Biff { row_index: signed32(row), ..self },
                    result: Ok(true),
                },
            }
        } else if id == 0x01 || id == 0x03 || id == 0x0b {
            Step {
                after: Biff { read_cell: true, cell_type: 0, ..self },
                result: Ok(true),
            }
        } else if id == 0x02 {
            match self.dword(8) {
                Err(message) => self.fails(message),
                Ok(raw) => Step {
                    after: Biff {
                        double_val: rk_value(raw),
                        read_cell: true,
                        cell_type: 3,
                        ..self
                    },
                    result: Ok(true),
                },
            }
        } else if id == 0x04 || id == 0x0a {
            match self.byte(8) {
                Err(message) => self.fails(message),
                Ok(value) => Step {
                    after: Biff {
                        bool_value: value == 1,
                        read_cell: true,
                        cell_type: 4,
                        ..self
                    },
                    result: Ok(true),
                },
            }
        } else if id == 0x09 || id == 0x05 {
            match self.double(8) {
                Err(message) => self.fails(message),
                Ok(bits) => Step {
                    after: Biff {
                        double_val: Number::Double(bits),
                        read_cell: true,
                        cell_type: 3,
                        ..self
                    },
                    result: Ok(true),
                },
            }
        } else if id == 0x06 || id == 0x08 {
            match self.dword(8) {
                Err(message) => self.fails(message),
                Ok(length) => match self.string(12, length as int) {
                    Err(message) => self.fails(message),
                    Ok(text) => Step {
                        after: Biff {
                            string_value: Some(text),
                            read_cell: true,
                            cell_type: 5,
                            ..self
                        },
                        result: Ok(true),
                    },
                },
            }
        } else if id == 0x07 {
            match self.dword(8) {
                Err(message) => self.fails(message),
                Ok(index) => Step {
                    after: Biff {
                        int_value: index,
                        read_cell: true,
                        cell_type: 2,
                        ..self
                    },
                    result: Ok(true),
                },
            }
        } else {
            Step { after: self, result: Ok(true) }
        }
    }

    /// The column and the style that every cell record starts with.
    pub open spec fn cell_head(self) -> Step<bool> {
        match self.dword(0) {
            Err(message) => self.fails(message),
            Ok(column) => {
                let s = Biff { column_num: column as int, ..self };
                match s.dword(4) {
                    Err(message) => s.fails(message),
                    Ok(style) => Step {
                        after: Biff { xf_index: style as int % 0x100_0000, ..s },
                        result: Ok(true),
                    },
                }
            },
        }
    }

    /// The next record of a worksheet.
    pub open spec fn worksheet_step(self) -> Step<bool> {
        match self.begin() {
            Step { after, result: Err(message) } => after.fails(message),
            Step { after, result: Ok(None) } => Step { after, result: Ok(false) },
            Step { after, result: Ok(Some(id)) } => {
                let s = Biff { read_cell: false, column_num: -1, string_value: None, ..after };
                match s.worksheet_payload(id) {
                    Step { after, result: Err(message) } => after.fails(message),
                    Step { after, result: Ok(_) } => if after.read_cell {
                        after.cell_head()
                    } else {
                        Step { after, result: Ok(true) }
                    },
                }
            },
        }
    }
}

/// The message for a malformed number in a record header.
pub open spec fn biff_vlq_message(fault: VlqFault) -> Seq<char> {
    match fault {
        VlqFault::PastEnd => "BIFF12 VLQ runs past end of buffer"@,
        VlqFault::Overflow => "BIFF12 VLQ overflows u32"@,
        VlqFault::TooLong => "BIFF12 VLQ is too long"@,
    }
}

/// 32 bits as a two's complement number.
pub open spec fn signed32(raw: u32) -> int {
    if raw < 0x8000_0000 {
        raw as int
    } else {
        raw - 0x1_0000_0000
    }
}

/// The number that a packed (RK) value holds: with bit 1 set the integer in the
/// upper 30 bits, else the double with those 30 bits in front; with bit 0 set, a
/// hundredth of it.
pub open spec fn rk_value(raw: u32) -> Number {
    let bits = if raw % 4 >= 2 {
        crate::number::double_of_int(signed32(raw) / 4) as u64
    } else {
        ((raw - raw % 4) * 0x1_0000_0000) as u64
    };
    if raw % 2 == 1 {
        Number::Hundredths(bits)
    } else {
        Number::Double(bits)
    }
}

/// The number that a packed (RK) value holds.
pub fn decode_rk(raw: u32) -> (n: Number)
    ensures
        n == rk_value(raw),
{
    let bits: u64 = if raw % 4 >= 2 {
        let q: i64 = (raw / 4) as i64;
        let n: i64 = if raw < 0x8000_0000 {
            q
        } else {
            q - 0x4000_0000
        };
        double_bits(n)
    } else {
        (raw - raw % 4) as u64 * 0x1_0000_0000
    };
    if raw % 2 == 1 {
        Number::Hundredths(bits)
    } else {
        Number::Double(bits)
    }
}

fn vlq_error(fault: VlqFault) -> (e: SpreadsheetError)
    ensures
        e.says(biff_vlq_message(fault)),
{
    match fault {
        VlqFault::PastEnd => invalid("BIFF12 VLQ runs past end of buffer"),
        VlqFault::Overflow => invalid("BIFF12 VLQ overflows u32"),
        VlqFault::TooLong => invalid("BIFF12 VLQ is too long"),
    }
}

impl<'a> BiffReaderWriter<'a> {
    /// A decoder at the start of a buffer.
    pub fn new(buffer: &'a [u8]) -> (r: Self)
        ensures
            r@ == decoder_at_start(buffer@),
            r@.wf(),
    {
        broadcast use vstd::std_specs::hash::group_hash_axioms;

        let length: usize = buffer.len();
        assert(buffer@.len() == length);
        BiffReaderWriter {
            buffer,
            pos: 0,
            is_sheet: false,
            workbook_id: 0,
            rec_id: None,
            workbook_name: None,
            in_cell_xf: false,
            in_number_format: false,
            shared_string_value: None,
            shared_string_unique_count: 0,
            cell_type: 0,
            int_value: 0,
            double_val: Number::Double(0),
            bool_value: false,
            string_value: None,
            column_num: -1,
            xf_index: 0,
            read_cell: false,
            row_index: -1,
            record_start: 0,
            record_end: 0,
            xf_index_to_num_fmt_id: Vec::new(),
            custom_num_fmts: HashSet::new(),
        }
    }

    /// Moves behind bytes that should have held a number.
    fn skip_fault(&mut self, at: usize, fault: VlqFault)
        requires
            old(self)@.wf(),
            at <= old(self)@.buffer.len(),
            crate::biff12::vlq_at(old(self)@.buffer, at as int, 0) == Err::<(nat, int), VlqFault>(
                fault,
            ),
        ensures
            final(self)@ == (Biff { pos: old(self)@.behind_fault(at as int, fault), ..old(self)@ }),
            final(self)@.wf(),
    {
        proof {
            crate::biff12::lemma_vlq_at_advances(self.buffer@, at as int, 0);
        }
        self.pos = match fault {
            VlqFault::PastEnd => self.buffer.len(),
            _ => at + 5,
        };
    }

    fn begin_record(&mut self) -> (r: SpreadsheetResult<Option<u32>>)
        requires
            old(self)@.wf(),
        ensures
            final(self)@ == old(self)@.begin().after,
            crate::error::agrees(r, old(self)@.begin().result),
            final(self)@.wf(),
            r matches Ok(Some(_)) ==> final(self)@.pos > old(self)@.pos,
    {
        if self.pos >= self.buffer.len() {
            return Ok(None);
        }
        let pos: usize = self.pos;
        proof {
            crate::biff12::lemma_vlq_at_advances(self.buffer@, pos as int, 0);
        }
        let (id, p1) = match decode_vlq(self.buffer, pos) {
            Ok(found) => found,
            Err(fault) => {
                self.skip_fault(pos, fault);
                return Err(vlq_error(fault));
            },
        };
        if p1 >= self.buffer.len() {
            self.pos = p1;
            return Err(invalid("BIFF12 record length is truncated"));
        }
        proof {
            crate::biff12::lemma_vlq_at_advances(self.buffer@, p1 as int, 0);
        }
        let (len, p2) = match decode_vlq(self.buffer, p1) {
            Ok(found) => found,
            Err(fault) => {
                self.skip_fault(p1, fault);
                return Err(vlq_error(fault));
            },
        };
        let end: usize = match p2.checked_add(len as usize) {
            Some(end) => end,
            None => {
                self.pos = p2;
                return Err(invalid("BIFF12 record length overflows"));
            },
        };
        if end > self.buffer.len() {
            self.pos = p2;
            return Err(invalid("BIFF12 record payload is truncated"));
        }
        self.record_start = p2;
        self.record_end = end;
        self.pos = end;
        Ok(Some(id))
    }

    fn field_start(&self, offset: usize, width: usize) -> (r: SpreadsheetResult<usize>)
        requires
            self@.wf(),
        ensures
            match r {
                Ok(at) => self@.field(offset as int, width as int) matches Ok(a) && a == at && at
                    + width <= self@.buffer.len(),
                Err(e) => self@.field(offset as int, width as int) matches Err(message) && e.says(
                    message,
                ),
            },
    {
        let start: usize = match self.record_start.checked_add(offset) {
            Some(n) => n,
            None => return Err(invalid("BIFF12 field offset overflows")),
        };
        let end: usize = match start.checked_add(width) {
            Some(n) => n,
            None => return Err(invalid("BIFF12 field width overflows")),
        };
        if end > self.record_end {
            return Err(invalid("BIFF12 record payload is truncated"));
        }
        Ok(start)
    }

    fn get_dword(&self, offset: usize) -> (r: SpreadsheetResult<u32>)
        requires
            self@.wf(),
        ensures
            crate::error::agrees(r, self@.dword(offset as int)),
    {
        match self.field_start(offset, 4) {
            Ok(at) => Ok(read_u32_le(self.buffer, at)),
            Err(e) => Err(e),
        }
    }

    fn get_word(&self, offset: usize) -> (r: SpreadsheetResult<u16>)
        requires
            self@.wf(),
        ensures
            crate::error::agrees(r, self@.word(offset as int)),
    {
        match self.field_start(offset, 2) {
            Ok(at) => Ok(self.buffer[at] as u16 + 256 * (self.buffer[at + 1] as u16)),
            Err(e) => Err(e),
        }
    }

    fn get_byte(&self, offset: usize) -> (r: SpreadsheetResult<u8>)
        requires
            self@.wf(),
        ensures
            crate::error::agrees(r, self@.byte(offset as int)),
    {
        match self.field_start(offset, 1) {
            Ok(at) => Ok(self.buffer[at]),
            Err(e) => Err(e),
        }
    }

    fn get_double(&self, offset: usize) -> (r: SpreadsheetResult<u64>)
        requires
            self@.wf(),
        ensures
            crate::error::agrees(r, self@.double(offset as int)),
    {
        match self.field_start(offset, 8) {
            Ok(at) => Ok(
                read_u32_le(self.buffer, at) as u64 + 0x1_0000_0000 * (read_u32_le(
                    self.buffer,
                    at + 4,
                ) as u64),
            ),
            Err(e) => Err(e),
        }
    }

    fn get_string(&self, offset: usize, length: usize) -> (r: SpreadsheetResult<String>)
        requires
            self@.wf(),
        ensures
            match r {
                Ok(s) => self@.string(offset as int, length as int) matches Ok(text) && s@ == text
                    && offset + 2 * length <= usize::MAX,
                Err(e) => self@.string(offset as int, length as int) matches Err(message) && e.says(
                    message,
                ),
            },
    {
        let width: usize = match length.checked_mul(2) {
            Some(n) => n,
            None => return Err(invalid("BIFF12 string length overflows")),
        };
        match self.field_start(offset, width) {
            Ok(at) => Ok(
                decode_utf16le(vstd::slice::slice_subrange(self.buffer, at, at + width)),
            ),
            Err(e) => Err(e),
        }
    }

    fn get_nullable_string(&self, offset: usize) -> (r: SpreadsheetResult<(Option<String>, usize)>)
        requires
            self@.wf(),
        ensures
            match r {
                Ok((s, next)) => self@.nullable_string(offset as int) matches Ok((text, n))
                    && text_of(s) == text && next == n,
                Err(e) => self@.nullable_string(offset as int) matches Err(message) && e.says(
                    message,
                ),
            },
    {
        let length: u32 = match self.get_dword(offset) {
            Ok(n) => n,
            Err(e) => return Err(e),
        };
        if length == 0xffff_ffff {
            return Ok((None, offset + 4));
        }
        match self.get_string(offset + 4, length as usize) {
            Ok(s) => Ok((Some(s), offset + 4 + 2 * (length as usize))),
            Err(e) => Err(e),
        }
    }

    /// Reads the next record of `xl/workbook.bin`. Returns `Ok(false)` at the end.
    pub fn read_workbook(&mut self) -> (r: SpreadsheetResult<bool>)
        requires
            old(self)@.wf(),
        ensures
            final(self)@ == old(self)@.workbook_step().after,
            crate::error::agrees(r, old(self)@.workbook_step().result),
            final(self)@.wf(),
            r matches Ok(true) ==> final(self)@.pos > old(self)@.pos,
    {
        let record_id: u32 = match self.begin_record() {
            Ok(Some(id)) => id,
            Ok(None) => return Ok(false),
            Err(e) => return Err(e),
        };
        self.is_sheet = false;
        if record_id == 0x9c {
            self.workbook_id = match self.get_dword(4) {
                Ok(n) => n,
                Err(e) => return Err(e),
            };
            let (rec_id, offset) = match self.get_nullable_string(8) {
                Ok(found) => found,
                Err(e) => return Err(e),
            };
            self.rec_id = rec_id;
            let length: u32 = match self.get_dword(offset) {
                Ok(n) => n,
                Err(e) => return Err(e),
            };
            match self.get_string(offset + 4, length as usize) {
                Ok(name) => self.workbook_name = Some(name),
                Err(e) => return Err(e),
            }
            self.is_sheet = true;
        }
        Ok(true)
    }

    /// Reads the next record of `xl/sharedStrings.bin`. Returns `Ok(false)` at the
    /// end.
    pub fn read_shared_strings(&mut self) -> (r: SpreadsheetResult<bool>)
        requires
            old(self)@.wf(),
        ensures
            final(self)@ == old(self)@.shared_strings_step().after,
            crate::error::agrees(r, old(self)@.shared_strings_step().result),
            final(self)@.wf(),
            r matches Ok(true) ==> final(self)@.pos > old(self)@.pos,
    {
        let record_id: u32 = match self.begin_record() {
            Ok(Some(id)) => id,
            Ok(None) => return Ok(false),
            Err(e) => return Err(e),
        };
        self.shared_string_value = None;
        if record_id == 0x13 {
            let length: u32 = match self.get_dword(1) {
                Ok(n) => n,
                Err(e) => return Err(e),
            };
            match self.get_string(5, length as usize) {
                Ok(text) => self.shared_string_value = Some(text),
                Err(e) => return Err(e),
            }
        } else if record_id == 0x9f {
            self.shared_string_unique_count = match self.get_dword(4) {
                Ok(n) => n,
                Err(e) => return Err(e),
            };
        }
        Ok(true)
    }

    /// Reads the next record of `xl/styles.bin`. Returns `Ok(false)` at the end.
    pub fn read_styles(&mut self) -> (r: SpreadsheetResult<bool>)
        requires
            old(self)@.wf(),
        ensures
            final(self)@ == old(self)@.styles_step().after,
            crate::error::agrees(r, old(self)@.styles_step().result),
            final(self)@.wf(),
            r matches Ok(true) ==> final(self)@.pos > old(self)@.pos,
    {
        broadcast use vstd::std_specs::hash::group_hash_axioms;

        let record_id: u32 = match self.begin_record() {
            Ok(Some(id)) => id,
            Ok(None) => return Ok(false),
            Err(e) => return Err(e),
        };
        if record_id == 0x269 {
            self.in_cell_xf = true;
        } else if record_id == 0x26a {
            self.in_cell_xf = false;
        } else if record_id == 0x267 {
            self.in_number_format = true;
        } else if record_id == 0x268 {
            self.in_number_format = false;
        } else if record_id == 0x2f && self.in_cell_xf {
            let num_fmt: u16 = match self.get_word(2) {
                Ok(n) => n,
                Err(e) => return Err(e),
            };
            self.xf_index_to_num_fmt_id.push(num_fmt);
        } else if record_id == 0x2c && self.in_number_format {
            let format: u16 = match self.get_word(0) {
                Ok(n) => n,
                Err(e) => return Err(e),
            };
            let length: u32 = match self.get_dword(2) {
                Ok(n) => n,
                Err(e) => return Err(e),
            };
            let code = match self.get_string(6, length as usize) {
                Ok(code) => code,
                Err(e) => return Err(e),
            };
            if is_date_format_code(code.as_str()) {
                self.custom_num_fmts.insert(format);
            }
        }
        Ok(true)
    }

    /// Takes in the payload of a worksheet record.
    fn take_payload(&mut self, id: u32) -> (r: SpreadsheetResult<bool>)
        requires
            old(self)@.wf(),
        ensures
            final(self)@ == old(self)@.worksheet_payload(id).after,
            crate::error::agrees(r, old(self)@.worksheet_payload(id).result),
            final(self)@.wf(),
            final(self)@.pos == old(self)@.pos,
    {
        if id == 0 {
            let row: u32 = match self.get_dword(0) {
                Ok(n) => n,
                Err(e) => return Err(e),
            };
            self.row_index = if row < 0x8000_0000 {
                row as i32
            } else {
                (row as i64 - 0x1_0000_0000) as i32
            };
        } else if id == 0x01 || id == 0x03 || id == 0x0b {
            self.read_cell = true;
            self.cell_type = 0;
        } else if id == 0x02 {
            let raw: u32 = match self.get_dword(8) {
                Ok(n) => n,
                Err(e) => return Err(e),
            };
            self.double_val = decode_rk(raw);
            self.read_cell = true;
            self.cell_type = 3;
        } else if id == 0x04 || id == 0x0a {
            let value: u8 = match self.get_byte(8) {
                Ok(n) => n,
                Err(e) => return Err(e),
            };
            self.bool_value = value == 1;
            self.read_cell = true;
            self.cell_type = 4;
        } else if id == 0x09 || id == 0x05 {
            let bits: u64 = match self.get_double(8) {
                Ok(n) => n,
                Err(e) => return Err(e),
            };
            self.double_val = Number::Double(bits);
            self.read_cell = true;
            self.cell_type = 3;
        } else if id == 0x06 || id == 0x08 {
            let length: u32 = match self.get_dword(8) {
                Ok(n) => n,
                Err(e) => return Err(e),
            };
            match self.get_string(12, length as usize) {
                Ok(text) => self.string_value = Some(text),
                Err(e) => return Err(e),
            }
            self.read_cell = true;
            self.cell_type = 5;
        } else if id == 0x07 {
            self.int_value = match self.get_dword(8) {
                Ok(n) => n,
                Err(e) => return Err(e),
            };
            self.read_cell = true;
            self.cell_type = 2;
        }
        Ok(true)
    }

    /// Reads the next record of a worksheet. Returns `Ok(false)` at the end.
    pub fn read_worksheet(&mut self) -> (r: SpreadsheetResult<bool>)
        requires
            old(self)@.wf(),
        ensures
            final(self)@ == old(self)@.worksheet_step().after,
            crate::error::agrees(r, old(self)@.worksheet_step().result),
            final(self)@.wf(),
            r matches Ok(true) ==> final(self)@.pos > old(self)@.pos,
    {
        let record_id: u32 = match self.begin_record() {
            Ok(Some(id)) => id,
            Ok(None) => return Ok(false),
            Err(e) => return Err(e),
        };
        self.read_cell = false;
        self.column_num = -1;
        self.string_value = None;
        match self.take_payload(record_id) {
            Ok(_) => {},
            Err(e) => return Err(e),
        }
        if self.read_cell {
            let column: u32 = match self.get_dword(0) {
                Ok(n) => n,
                Err(e) => return Err(e),
            };
            self.column_num = column as i64;
            let style: u32 = match self.get_dword(4) {
                Ok(n) => n,
                Err(e) => return Err(e),
            };
            self.xf_index = (style % 0x100_0000) as usize;
        }
        Ok(true)
    }
}

} // verus!
