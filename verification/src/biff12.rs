//! Low-level BIFF12 (XLSB) record helpers.
//!
//! A BIFF12 record is the VLQ of its id, the VLQ of its payload length, and the
//! payload.

use vstd::prelude::*;
use crate::error::{invalid, SpreadsheetResult};
use crate::utf16::decode_utf16le;

verus! {

/// The 7-bit groups of `value`, least significant first. Every byte but the
/// last has its high bit set.
pub open spec fn vlq(value: nat) -> Seq<u8>
    decreases value,
{
    if value < 0x80 {
        seq![value as u8]
    } else {
        seq![(value % 0x80 + 0x80) as u8] + vlq(value / 0x80)
    }
}

/// What is wrong with bytes that should hold a number.
#[derive(Debug, Clone, Copy, PartialEq, Eq, Structural)]
pub enum VlqFault {
    PastEnd,
    Overflow,
    TooLong,
}

/// The value whose groups begin at `pos`, and the offset behind it, when `index`
/// groups of the number have gone before. At most five groups make a number, and
/// the fifth holds four bits.
pub open spec fn vlq_at(buf: Seq<u8>, pos: int, index: nat) -> Result<(nat, int), VlqFault>
    decreases 5 - index,
{
    if index >= 5 {
        Err(VlqFault::TooLong)
    } else if pos >= buf.len() {
        Err(VlqFault::PastEnd)
    } else if index == 4 && buf[pos] % 0x80 > 0x0f {
        Err(VlqFault::Overflow)
    } else if buf[pos] < 0x80 {
        Ok((buf[pos] as nat, pos + 1))
    } else {
        match vlq_at(buf, pos + 1, index + 1) {
            Ok((high, next)) => Ok(((buf[pos] % 0x80) as nat + 0x80 * high, next)),
            Err(fault) => Err(fault),
        }
    }
}

/// The message for a malformed number.
pub open spec fn vlq_message(fault: VlqFault) -> Seq<char> {
    match fault {
        VlqFault::PastEnd => "VLQ runs past end of buffer"@,
        VlqFault::Overflow => "VLQ overflows u32"@,
        VlqFault::TooLong => "VLQ too long"@,
    }
}

/// What `index` groups of seven bits can still hold of a 32-bit number.
spec fn vlq_limit(index: nat) -> nat {
    if index == 0 {
        0x1_0000_0000
    } else if index == 1 {
        0x200_0000
    } else if index == 2 {
        0x4_0000
    } else if index == 3 {
        0x800
    } else if index == 4 {
        0x10
    } else {
        0
    }
}

proof fn lemma_vlq_read_back(buf: Seq<u8>, pos: int, index: nat, value: nat)
    requires
        value < vlq_limit(index),
        0 <= pos,
        pos + vlq(value).len() <= buf.len(),
        buf.subrange(pos, pos + vlq(value).len()) == vlq(value),
    ensures
        vlq_at(buf, pos, index) matches Ok((v, next)) && v == value && next == pos + vlq(value).len(),
    decreases value,
{
    let here = buf.subrange(pos, pos + vlq(value).len());
    if value < 0x80 {
        assert(here[0] == buf[pos]);
    } else {
        let rest = vlq(value / 0x80);
        assert(vlq(value).len() == 1 + rest.len());
        assert(here[0] == buf[pos]);
        assert(vlq(value)[0] == (value % 0x80 + 0x80) as u8);
        assert(buf.subrange(pos + 1, pos + 1 + rest.len()) =~= rest) by {
            assert forall|i: int| 0 <= i < rest.len() implies buf[pos + 1 + i] == rest[i] by {
                assert(here[1 + i] == buf[pos + 1 + i]);
                assert(vlq(value)[1 + i] == rest[i]);
            }
        }
        lemma_vlq_read_back(buf, pos + 1, index + 1, value / 0x80);
    }
}

/// The bytes that encode a number, wherever they stand, read back as that
/// number, and reading stops just behind them.
pub proof fn law_vlq_round_trip(before: Seq<u8>, value: u32, after: Seq<u8>)
    ensures
        vlq_at(before + vlq(value as nat) + after, before.len() as int, 0) matches Ok((v, next))
            && v == value && next == before.len() + vlq(value as nat).len(),
{
    let buf = before + vlq(value as nat) + after;
    let at = before.len() as int;
    assert(buf.subrange(at, at + vlq(value as nat).len()) =~= vlq(value as nat));
    lemma_vlq_read_back(buf, at, 0, value as nat);
}

proof fn lemma_vlq_len(value: nat, index: nat)
    requires
        index <= 4,
        value < vlq_limit(index),
    ensures
        1 <= vlq(value).len() <= 5 - index,
    decreases value,
{
    if value >= 0x80 {
        lemma_vlq_len(value / 0x80, index + 1);
    }
}

/// A 32-bit number takes one to five bytes.
pub proof fn law_vlq_length(value: u32)
    ensures
        1 <= vlq(value as nat).len() <= 5,
{
    lemma_vlq_len(value as nat, 0);
}

/// A number ends inside its buffer and fits 32 bits. Bytes that overflow or do
/// not end take five bytes.
pub proof fn lemma_vlq_at_advances(buf: Seq<u8>, pos: int, index: nat)
    requires
        0 <= pos,
        index <= 5,
    ensures
        match vlq_at(buf, pos, index) {
            Ok((value, next)) => pos < next <= buf.len() && value <= u32::MAX,
            Err(VlqFault::PastEnd) => true,
            Err(_) => pos + 5 - index <= buf.len() || index == 5,
        },
{
    lemma_vlq_at_range(buf, pos, index);
}

proof fn lemma_vlq_at_range(buf: Seq<u8>, pos: int, index: nat)
    requires
        0 <= pos,
        index <= 5,
    ensures
        match vlq_at(buf, pos, index) {
            Ok((value, next)) => pos < next <= buf.len() && value < vlq_limit(index),
            Err(VlqFault::PastEnd) => true,
            Err(_) => pos + 5 - index <= buf.len() || index == 5,
        },
    decreases 5 - index,
{
    if index < 5 {
        lemma_vlq_at_range(buf, pos + 1, index + 1);
    }
}

/// Decodes the VLQ integer at `pos`. Returns the value and the offset behind it.
pub fn read_vlq(buf: &[u8], pos: usize) -> (r: SpreadsheetResult<(u32, usize)>)
    ensures
        match r {
            Ok((value, next)) => vlq_at(buf@, pos as int, 0) matches Ok((v, n)) && v == value && n
                == next,
            Err(e) => vlq_at(buf@, pos as int, 0) matches Err(fault) && e.says(vlq_message(fault)),
        },
{
    match decode_vlq(buf, pos) {
        Ok(found) => Ok(found),
        Err(VlqFault::PastEnd) => Err(invalid("VLQ runs past end of buffer")),
        Err(VlqFault::Overflow) => Err(invalid("VLQ overflows u32")),
        Err(VlqFault::TooLong) => Err(invalid("VLQ too long")),
    }
}

/// Decodes the VLQ integer at `pos`, or tells what is wrong with it.
pub fn decode_vlq(buf: &[u8], pos: usize) -> (r: Result<(u32, usize), VlqFault>)
    ensures
        match r {
            Ok((value, next)) => vlq_at(buf@, pos as int, 0) matches Ok((v, n)) && v == value && n
                == next,
            Err(fault) => vlq_at(buf@, pos as int, 0) matches Err(f) && f == fault,
        },
{
    let mut value: u32 = 0;
    let mut scale: u32 = 1;
    let mut index: usize = 0;
    let mut at: usize = pos;
    while index < 5
        invariant
            index <= 5,
            index == 0 ==> scale == 1,
            index == 1 ==> scale == 0x80,
            index == 2 ==> scale == 0x4000,
            index == 3 ==> scale == 0x20_0000,
            index == 4 ==> scale == 0x1000_0000,
            index <= 4 ==> value < scale,
            vlq_at(buf@, pos as int, 0) == (match vlq_at(buf@, at as int, index as nat) {
                Ok((high, next)) => Ok::<(nat, int), VlqFault>(
                    ((value + scale * high) as nat, next),
                ),
                Err(fault) => Err(fault),
            }),
        decreases 5 - index,
    {
        if at >= buf.len() {
            return Err(VlqFault::PastEnd);
        }
        let byte: u8 = buf[at];
        let payload: u8 = byte & 0x7f;
        assert(byte & 0x7f == byte % 0x80) by (bit_vector);
        assert(byte & 0x80 == 0 <==> byte < 0x80) by (bit_vector);
        if index == 4 && payload > 0x0f {
            return Err(VlqFault::Overflow);
        }
        let ghost limit = vlq_limit(index as nat);
        assert(value + payload * scale < scale * limit && payload * scale <= 0xffff_ffff
            && value + payload * scale < 128 * scale) by (nonlinear_arith)
            requires
                value < scale,
                payload < 0x80,
                payload < limit,
                scale * limit == 0x1_0000_0000,
        ;
        if byte & 0x80 == 0 {
            proof {
                lemma_vlq_at_advances(buf@, at as int, index as nat);
                assert(scale * (byte as nat) == payload * scale) by (nonlinear_arith)
                    requires
                        byte == payload,
                ;
            }
            return Ok((value + payload as u32 * scale, at + 1));
        }
        if index == 4 {
            return Err(VlqFault::TooLong);
        }
        proof {
            match vlq_at(buf@, at as int + 1, index as nat + 1) {
                Ok((high, _)) => {
                    assert(value + scale * ((payload as nat) + 0x80 * high) == (value + payload
                        * scale) + (scale * 0x80) * high) by (nonlinear_arith);
                },
                Err(_) => {},
            }
        }
        value = value + payload as u32 * scale;
        scale = scale * 0x80;
        at = at + 1;
        index = index + 1;
    }
    Err(VlqFault::TooLong)
}

/// The number of bytes that the VLQ of `value` takes.
pub fn vlq_length(value: u32) -> (n: usize)
    ensures
        n == vlq(value as nat).len(),
{
    let mut n: usize = 1;
    let mut rest: u32 = value;
    proof {
        law_vlq_length(value);
    }
    while rest >= 0x80
        invariant
            n >= 1,
            n - 1 + vlq(rest as nat).len() == vlq(value as nat).len(),
            vlq(value as nat).len() <= 5,
        decreases rest,
    {
        n += 1;
        rest = rest / 0x80;
    }
    n
}

/// Encodes `value` as VLQ bytes.
pub fn vlq_bytes(value: u32) -> (out: Vec<u8>)
    ensures
        out@ == vlq(value as nat),
{
    let mut out: Vec<u8> = Vec::new();
    let mut rest: u32 = value;
    while rest >= 0x80
        invariant
            out@ + vlq(rest as nat) == vlq(value as nat),
        decreases rest,
    {
        let ghost before = out@;
        out.push((rest % 0x80) as u8 | 0x80);
        proof {
            let low = (rest % 0x80) as u8;
            assert(low | 0x80 == low + 0x80) by (bit_vector)
                requires
                    low < 0x80,
            ;
            assert(out@ + vlq((rest / 0x80) as nat) =~= before + vlq(rest as nat));
        }
        rest = rest / 0x80;
    }
    let ghost before = out@;
    out.push(rest as u8);
    assert(out@ =~= before + vlq(rest as nat));
    out
}

/// Where a record stands in its buffer.
#[derive(Debug, Clone, Copy)]
pub struct Biff12Record {
    /// Offset of the record header (id and length).
    pub header_start: usize,
    /// Offset just past the header, where the payload starts.
    pub data_start: usize,
    /// Offset just past the payload.
    pub data_end: usize,
    pub id: u32,
    pub len: u32,
}

impl Default for Biff12Record {
    fn default() -> (r: Self)
        ensures
            r == (Biff12Record { header_start: 0, data_start: 0, data_end: 0, id: 0, len: 0 }),
    {
        Biff12Record { header_start: 0, data_start: 0, data_end: 0, id: 0, len: 0 }
    }
}

/// The record that starts at `pos`: none at the end of the buffer, a message
/// where the bytes do not hold a whole record.
pub open spec fn record_at(buf: Seq<u8>, pos: int) -> Result<Option<Biff12Record>, Seq<char>> {
    if pos == buf.len() {
        Ok(None)
    } else if pos > buf.len() {
        Err("record offset runs past end of buffer"@)
    } else {
        match vlq_at(buf, pos, 0) {
            Err(fault) => Err(vlq_message(fault)),
            Ok((id, p1)) => match vlq_at(buf, p1, 0) {
                Err(fault) => Err(vlq_message(fault)),
                Ok((len, p2)) => if p2 + len > usize::MAX {
                    Err("record length overflows buffer offset"@)
                } else if p2 + len > buf.len() {
                    Err("record payload runs past end of buffer"@)
                } else {
                    Ok(
                        Some(
                            Biff12Record {
                                header_start: pos as usize,
                                data_start: p2 as usize,
                                data_end: (p2 + len) as usize,
                                id: id as u32,
                                len: len as u32,
                            },
                        ),
                    )
                },
            },
        }
    }
}

/// A record lies inside its buffer, takes at least two bytes, and its fields fit
/// together.
pub proof fn lemma_record_bounds(buf: Seq<u8>, pos: int)
    requires
        0 <= pos,
        buf.len() <= usize::MAX,
    ensures
        record_at(buf, pos) matches Ok(Some(rec)) ==> {
            &&& rec.header_start == pos
            &&& pos + 2 <= rec.data_start
            &&& rec.data_start + rec.len == rec.data_end
            &&& rec.data_end <= buf.len()
        },
{
    lemma_vlq_at_advances(buf, pos, 0);
    if let Ok((_, p1)) = vlq_at(buf, pos, 0) {
        lemma_vlq_at_advances(buf, p1, 0);
    }
}

/// Fills `rec` with the record that starts at `pos`.
///
/// Returns `Ok(false)` only when the buffer is exhausted. A truncated or
/// overflowing record is an error. `rec` changes only on `Ok(true)`.
pub fn read_record(buf: &[u8], pos: usize, rec: &mut Biff12Record) -> (r: SpreadsheetResult<bool>)
    ensures
        match r {
            Ok(true) => record_at(buf@, pos as int) matches Ok(Some(found)) && *final(rec) == found,
            Ok(false) => record_at(buf@, pos as int) matches Ok(None) && *final(rec) == *old(rec),
            Err(e) => record_at(buf@, pos as int) matches Err(message) && e.says(message)
                && *final(rec) == *old(rec),
        },
{
    if pos == buf.len() {
        return Ok(false);
    }
    if pos > buf.len() {
        return Err(invalid("record offset runs past end of buffer"));
    }
    proof {
        lemma_vlq_at_advances(buf@, pos as int, 0);
    }
    let (id, p1) = match read_vlq(buf, pos) {
        Ok(found) => found,
        Err(e) => return Err(e),
    };
    proof {
        lemma_vlq_at_advances(buf@, p1 as int, 0);
    }
    let (len, p2) = match read_vlq(buf, p1) {
        Ok(found) => found,
        Err(e) => return Err(e),
    };
    let data_end: usize = match p2.checked_add(len as usize) {
        Some(end) => end,
        None => return Err(invalid("record length overflows buffer offset")),
    };
    if data_end > buf.len() {
        return Err(invalid("record payload runs past end of buffer"));
    }
    rec.header_start = pos;
    rec.data_start = p2;
    rec.data_end = data_end;
    rec.id = id;
    rec.len = len;
    Ok(true)
}

/// The bytes of a record. The length field holds the payload length modulo 2^32.
pub open spec fn record(id: nat, payload: Seq<u8>) -> Seq<u8> {
    vlq(id) + vlq(payload.len() % 0x1_0000_0000) + payload
}

/// Builds a BIFF12 record from an id and a payload.
pub fn build_record(id: u32, payload: &[u8]) -> (out: Vec<u8>)
    ensures
        out@ == record(id as nat, payload@),
{
    let mut out = vlq_bytes(id);
    let n: u64 = payload.len() as u64;
    assert(n as u32 == n % 0x1_0000_0000) by (bit_vector);
    let mut length = vlq_bytes(#[verifier::truncate] (n as u32));
    out.append(&mut length);
    append_bytes(&mut out, payload);
    out
}

/// Appends the bytes of `more` to `out`.
pub fn append_bytes(out: &mut Vec<u8>, more: &[u8])
    ensures
        final(out)@ == old(out)@ + more@,
{
    let ghost before = out@;
    out.extend_from_slice(more);
    assert(out@ =~= before + more@);
}

/// A record built from an id and a payload of fewer than 2^32 bytes, wherever it
/// stands, reads back with that id, that length and exactly that payload.
pub proof fn law_record_round_trip(before: Seq<u8>, id: u32, payload: Seq<u8>, after: Seq<u8>)
    requires
        payload.len() <= u32::MAX,
        before.len() + record(id as nat, payload).len() + after.len() <= usize::MAX,
    ensures
        ({
            let buf = before + record(id as nat, payload) + after;
            record_at(buf, before.len() as int) matches Ok(Some(rec)) && {
                &&& rec.header_start == before.len()
                &&& rec.id == id
                &&& rec.len == payload.len()
                &&& rec.data_end == before.len() + record(id as nat, payload).len()
                &&& buf.subrange(rec.data_start as int, rec.data_end as int) == payload
            }
        }),
{
    let id_bytes = vlq(id as nat);
    let len_bytes = vlq(payload.len());
    let buf = before + record(id as nat, payload) + after;
    assert(payload.len() % 0x1_0000_0000 == payload.len());
    law_vlq_round_trip(before, id, len_bytes + payload + after);
    assert(buf =~= before + id_bytes + (len_bytes + payload + after));
    law_vlq_round_trip(before + id_bytes, payload.len() as u32, payload + after);
    assert(buf =~= (before + id_bytes) + len_bytes + (payload + after));
    lemma_vlq_at_advances(buf, before.len() as int, 0);
    let start = before.len() + id_bytes.len() + len_bytes.len();
    assert(buf.subrange(start as int, (start + payload.len()) as int) =~= payload);
}

/// The text of `char_count` UTF-16 code units from byte `start` on, or the
/// message that says which bound is broken.
pub open spec fn utf16_at(buf: Seq<u8>, start: int, char_count: int) -> Result<
    Seq<char>,
    Seq<char>,
> {
    if 2 * char_count > usize::MAX {
        Err("UTF-16 character count overflows buffer offset"@)
    } else if start + 2 * char_count > usize::MAX {
        Err("UTF-16 range overflows buffer offset"@)
    } else if start + 2 * char_count > buf.len() {
        Err("UTF-16 string runs past record boundary"@)
    } else {
        Ok(
            crate::utf16::decode_units(
                crate::utf16::le_units(buf.subrange(start, start + 2 * char_count)),
            ),
        )
    }
}

/// Reads a UTF-16LE string of `char_count` code units from `start` on, empty
/// where it does not lie in the buffer.
pub fn read_utf16(buf: &[u8], start: usize, char_count: usize) -> (s: String)
    ensures
        s@ == (match utf16_at(buf@, start as int, char_count as int) {
            Ok(text) => text,
            Err(_) => Seq::<char>::empty(),
        }),
{
    match try_read_utf16(buf, start, char_count) {
        Ok(text) => text,
        Err(_) => String::new(),
    }
}

/// Checked UTF-16LE reader.
pub fn try_read_utf16(buf: &[u8], start: usize, char_count: usize) -> (r: SpreadsheetResult<String>)
    ensures
        match r {
            Ok(s) => utf16_at(buf@, start as int, char_count as int) matches Ok(text) && s@ == text,
            Err(e) => utf16_at(buf@, start as int, char_count as int) matches Err(message)
                && e.says(message),
        },
{
    let byte_count: usize = match char_count.checked_mul(2) {
        Some(n) => n,
        None => return Err(invalid("UTF-16 character count overflows buffer offset")),
    };
    let end: usize = match start.checked_add(byte_count) {
        Some(n) => n,
        None => return Err(invalid("UTF-16 range overflows buffer offset")),
    };
    if end > buf.len() {
        return Err(invalid("UTF-16 string runs past record boundary"));
    }
    Ok(decode_utf16le(vstd::slice::slice_subrange(buf, start, end)))
}

/// The little-endian 32-bit number at `at`.
pub open spec fn le_u32_at(buf: Seq<u8>, at: int) -> int {
    buf[at] + 0x100 * buf[at + 1] + 0x1_0000 * buf[at + 2] + 0x100_0000 * buf[at + 3]
}

/// Reads the little-endian 32-bit number at `at`.
pub fn read_u32_le(buf: &[u8], at: usize) -> (n: u32)
    requires
        at + 4 <= buf.len(),
    ensures
        n == le_u32_at(buf@, at as int),
{
    buf[at] as u32 + 0x100 * (buf[at + 1] as u32) + 0x1_0000 * (buf[at + 2] as u32) + 0x100_0000 * (
    buf[at + 3] as u32)
}

/// Whether the first workbook-properties record (id 0x99) from `pos` on has its
/// lowest flag bit set.
pub open spec fn date_system_scan(buf: Seq<u8>, pos: int) -> Result<bool, Seq<char>>
    decreases buf.len() - pos,
    when 0 <= pos <= buf.len() <= usize::MAX
{
    proof {
        lemma_record_bounds(buf, pos);
    }
    match record_at(buf, pos) {
        Err(message) => Err(message),
        Ok(None) => Ok(false),
        Ok(Some(rec)) => if rec.id == 0x99 && rec.len >= 4 {
            Ok(le_u32_at(buf, rec.data_start as int) % 2 == 1)
        } else if rec.id == 0x99 {
            Err("workbook date-system record is truncated"@)
        } else {
            date_system_scan(buf, rec.data_end as int)
        },
    }
}

/// Reads the workbook-level 1904 date-system flag from `xl/workbook.bin`.
pub fn uses_1904_date_system_bin(buf: &[u8]) -> (r: SpreadsheetResult<bool>)
    ensures
        match r {
            Ok(flag) => date_system_scan(buf@, 0) matches Ok(f) && f == flag,
            Err(e) => date_system_scan(buf@, 0) matches Err(message) && e.says(message),
        },
{
    let mut rec = Biff12Record::default();
    let mut pos: usize = 0;
    loop
        invariant
            pos <= buf.len(),
            date_system_scan(buf@, 0) == date_system_scan(buf@, pos as int),
        decreases buf.len() - pos,
    {
        proof {
            lemma_record_bounds(buf@, pos as int);
        }
        match read_record(buf, pos, &mut rec) {
            Err(e) => return Err(e),
            Ok(false) => return Ok(false),
            Ok(true) => {},
        }
        if rec.id == 0x0099 && rec.len >= 4 {
            let flags: u32 = read_u32_le(buf, rec.data_start);
            return Ok(flags % 2 != 0);
        } else if rec.id == 0x0099 {
            return Err(invalid("workbook date-system record is truncated"));
        }
        pos = rec.data_end;
    }
}

/// The contents of `xl/sharedStrings.bin`.
pub struct ParsedSharedStrings {
    pub values: Vec<String>,
    pub total: u32,
    pub unique: u32,
    /// Offset of the end-of-table record, where new items are inserted.
    pub end_sst_offset: usize,
}

/// What a shared-string table holds.
pub struct SharedStrings {
    pub values: Seq<Seq<char>>,
    pub total: int,
    pub unique: int,
    pub end_sst_offset: int,
}

impl View for ParsedSharedStrings {
    type V = SharedStrings;

    open spec fn view(&self) -> SharedStrings {
        SharedStrings {
            values: texts(self.values@),
            total: self.total as int,
            unique: self.unique as int,
            end_sst_offset: self.end_sst_offset as int,
        }
    }
}

/// The texts of a sequence of strings.
pub open spec fn texts(strings: Seq<String>) -> Seq<Seq<char>> {
    Seq::new(strings.len(), |i: int| strings[i]@)
}

/// One record of a shared-string table: the header (0x9f) sets the counts, an
/// item (0x13) adds its text, the end mark (0xa0) sets the insertion point, and
/// any other record is skipped.
pub open spec fn sst_step(buf: Seq<u8>, rec: Biff12Record, table: SharedStrings) -> Result<
    SharedStrings,
    Seq<char>,
> {
    if rec.id == 0x9f {
        if rec.len < 8 {
            Err("shared-string header is truncated"@)
        } else {
            Ok(
                SharedStrings {
                    total: le_u32_at(buf, rec.data_start as int),
                    unique: le_u32_at(buf, rec.data_start + 4),
                    ..table
                },
            )
        }
    } else if rec.id == 0x13 {
        if rec.len < 5 {
            Err("shared-string item is truncated"@)
        } else {
            let cch = le_u32_at(buf, rec.data_start + 1);
            if 2 * cch > usize::MAX {
                Err("shared-string length overflows"@)
            } else if 2 * cch > rec.len - 5 {
                Err("shared-string UTF-16 payload is truncated"@)
            } else {
                match utf16_at(buf, rec.data_start + 5, cch) {
                    Err(message) => Err(message),
                    Ok(text) => Ok(SharedStrings { values: table.values.push(text), ..table }),
                }
            }
        }
    } else if rec.id == 0xa0 {
        Ok(SharedStrings { end_sst_offset: rec.header_start as int, ..table })
    } else {
        Ok(table)
    }
}

/// The table after all records from `pos` on.
pub open spec fn sst_scan(buf: Seq<u8>, pos: int, table: SharedStrings) -> Result<
    SharedStrings,
    Seq<char>,
>
    decreases buf.len() - pos,
    when 0 <= pos <= buf.len() <= usize::MAX
{
    proof {
        lemma_record_bounds(buf, pos);
    }
    match record_at(buf, pos) {
        Err(message) => Err(message),
        Ok(None) => Ok(table),
        Ok(Some(rec)) => match sst_step(buf, rec, table) {
            Err(message) => Err(message),
            Ok(next) => sst_scan(buf, rec.data_end as int, next),
        },
    }
}

/// The table that `xl/sharedStrings.bin` holds.
pub open spec fn shared_strings_of(buf: Seq<u8>) -> Result<SharedStrings, Seq<char>> {
    sst_scan(
        buf,
        0,
        SharedStrings {
            values: Seq::empty(),
            total: 0,
            unique: 0,
            end_sst_offset: buf.len() as int,
        },
    )
}

/// Parses the contents of `xl/sharedStrings.bin`.
pub fn parse_shared_strings_bin(buf: &[u8]) -> (r: SpreadsheetResult<ParsedSharedStrings>)
    ensures
        match r {
            Ok(table) => shared_strings_of(buf@) matches Ok(t) && table@ == t,
            Err(e) => shared_strings_of(buf@) matches Err(message) && e.says(message),
        },
{
    let mut table = ParsedSharedStrings {
        values: Vec::new(),
        total: 0,
        unique: 0,
        end_sst_offset: buf.len(),
    };
    let mut rec = Biff12Record::default();
    let mut pos: usize = 0;
    assert(table@.values =~= Seq::<Seq<char>>::empty());
    loop
        invariant
            pos <= buf.len(),
            shared_strings_of(buf@) == sst_scan(buf@, pos as int, table@),
        decreases buf.len() - pos,
    {
        proof {
            lemma_record_bounds(buf@, pos as int);
        }
        let ghost before = table@;
        match read_record(buf, pos, &mut rec) {
            Err(e) => return Err(e),
            Ok(false) => return Ok(table),
            Ok(true) => {},
        }
        pos = rec.data_end;
        if rec.id == 0x009f {
            if rec.len < 8 {
                return Err(invalid("shared-string header is truncated"));
            }
            table.total = read_u32_le(buf, rec.data_start);
            table.unique = read_u32_le(buf, rec.data_start + 4);
        } else if rec.id == 0x0013 {
            if rec.len < 5 {
                return Err(invalid("shared-string item is truncated"));
            }
            let cch: usize = read_u32_le(buf, rec.data_start + 1) as usize;
            let byte_count: usize = match cch.checked_mul(2) {
                Some(n) => n,
                None => return Err(invalid("shared-string length overflows")),
            };
            if byte_count > rec.len as usize - 5 {
                return Err(invalid("shared-string UTF-16 payload is truncated"));
            }
            let text = match try_read_utf16(buf, rec.data_start + 5, cch) {
                Ok(text) => text,
                Err(e) => return Err(e),
            };
            table.values.push(text);
            assert(table@.values =~= before.values.push(text@));
        } else if rec.id == 0x00a0 {
            table.end_sst_offset = rec.header_start;
        }
        assert(sst_step(buf@, rec, before) == Ok::<SharedStrings, Seq<char>>(table@));
    }
}

} // verus!
