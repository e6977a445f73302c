//! What the XLSB updater reads and changes, by the bytes of the records.

use vstd::prelude::*;
use crate::xlsb_patch::CacheState;
use crate::xlsx_styles::StyledCell;

verus! {

/// A record stands at an offset, and the next one behind it.
proof fn lemma_record(buffer: Seq<u8>, at: int, id: u32, payload: Seq<u8>) -> (start: int)
    requires
        buffer.len() <= usize::MAX,
        at >= 0,
        payload.len() <= u32::MAX,
        crate::xlsb_laws::holds(buffer, at, crate::biff12::record(id as nat, payload)),
    ensures
        crate::biff12::record_at(buffer, at) matches Ok(Some(rec)) && rec.id == id && rec.len
            == payload.len() && rec.data_start == start && rec.data_end == start + payload.len(),
        start + payload.len() == at + crate::biff12::record(id as nat, payload).len(),
        start + payload.len() <= buffer.len(),
        at < start,
        forall|i: int| 0 <= i < payload.len() ==> buffer[start + i] == #[trigger] payload[i],
{
    crate::xlsb_part_laws::lemma_record_holds(buffer, at, id, payload);
    let start = at + crate::xlsb_part_laws::payload_offset(id as nat, payload.len());
    let whole = crate::biff12::record(id as nat, payload);
    let front = whole.len() - payload.len();
    assert(start == at + front);
    assert forall|i: int| 0 <= i < payload.len() implies buffer[start + i]
        == #[trigger] payload[i] by {
        crate::xlsb_laws::lemma_holds_byte(buffer, at, whole, front + i);
        assert(whole[front + i] == payload[i]);
    }
    start
}

/// Cells that point at a shared string (0x07) are counted, one each, and no other
/// records.
pub proof fn law_string_references_are_counted(
    buffer: Seq<u8>,
    at: int,
    id: u32,
    payload: Seq<u8>,
    count: int,
)
    requires
        buffer.len() <= usize::MAX,
        at >= 0,
        payload.len() <= u32::MAX,
        crate::xlsb_laws::holds(buffer, at, crate::biff12::record(id as nat, payload)),
    ensures
        ({
            let next = at + crate::biff12::record(id as nat, payload).len();
            crate::xlsb_patch::string_refs(buffer, at, count) == crate::xlsb_patch::string_refs(
                buffer,
                next,
                if id == 0x07 {
                    count + 1
                } else {
                    count
                },
            )
        }),
{
    let start = lemma_record(buffer, at, id, payload);
}

/// A cell with a style, whatever its kind (0x01 to 0x0b), is noted by the column that
/// the first four bytes of its record name and the style that the next three do, and as
/// one of the first row only there. Cells of style zero and other records are passed
/// over, and a row header (0x00) says whether the first row begins.
pub proof fn law_styles_are_collected(
    buffer: Seq<u8>,
    at: int,
    id: u32,
    payload: Seq<u8>,
    first: bool,
    cells: Seq<StyledCell>,
)
    requires
        buffer.len() <= usize::MAX,
        at >= 0,
        8 <= payload.len() <= u32::MAX,
        crate::xlsb_laws::holds(buffer, at, crate::biff12::record(id as nat, payload)),
    ensures
        ({
            let next = at + crate::biff12::record(id as nat, payload).len();
            let number = payload[0] + 0x100 * payload[1] + 0x1_0000 * payload[2] + 0x100_0000
                * payload[3];
            let style = payload[4] + 0x100 * payload[5] + 0x1_0000 * payload[6];
            let row: int = if first {
                1
            } else {
                0
            };
            crate::xlsb_patch::styled_cells(buffer, at, first, cells)
                == crate::xlsb_patch::styled_cells(
                buffer,
                next,
                if id == 0 {
                    number == 0
                } else {
                    first
                },
                if 1 <= id <= 0x0b && style != 0 {
                    cells.push(StyledCell { col: number, row, style })
                } else {
                    cells
                },
            )
        }),
{
    let start = lemma_record(buffer, at, id, payload);
    assert(buffer[start + 0] == payload[0] && buffer[start + 1] == payload[1]);
    assert(buffer[start + 2] == payload[2] && buffer[start + 3] == payload[3]);
    assert(buffer[start + 4] == payload[4] && buffer[start + 5] == payload[5]);
    assert(buffer[start + 6] == payload[6] && buffer[start + 7] == payload[7]);
    let low = payload[4] + 0x100 * payload[5] + 0x1_0000 * payload[6];
    let word = low + 0x100_0000 * payload[7];
    assert(word % 0x100_0000 == low) by (nonlinear_arith)
        requires
            word == low + 0x100_0000 * payload[7],
            0 <= low < 0x100_0000,
    ;
}

/// The style that the updater gives dates is the first whose number format is one of
/// Excel's own for dates, 14 to 22 and 45 to 47, or one of the workbook's.
pub proof fn law_date_style_is_the_first(formats: Seq<u16>, custom: Set<u16>, from: int)
    requires
        0 <= from,
    ensures
        match crate::xlsb_patch::dated_format(formats, custom, from) {
            Some(j) => {
                &&& from <= j < formats.len()
                &&& 14 <= formats[j] <= 22 || 45 <= formats[j] <= 47 || custom.contains(formats[j])
                &&& forall|i: int|
                    from <= i < j ==> !(14 <= #[trigger] formats[i] <= 22 || 45 <= formats[i] <= 47
                        || custom.contains(formats[i]))
            },
            None => forall|i: int|
                from <= i < formats.len() ==> !(14 <= #[trigger] formats[i] <= 22 || 45
                    <= formats[i] <= 47 || custom.contains(formats[i])),
        },
    decreases formats.len() - from,
{
    if from < formats.len() {
        law_date_style_is_the_first(formats, custom, from + 1);
    }
}

/// The record of the workbook's properties (0x99) says by its lowest bit whether dates
/// count from 1904; records in front of it say nothing of it.
pub proof fn law_date_system_is_read(buffer: Seq<u8>, at: int, id: u32, payload: Seq<u8>)
    requires
        buffer.len() <= usize::MAX,
        at >= 0,
        4 <= payload.len() <= u32::MAX,
        crate::xlsb_laws::holds(buffer, at, crate::biff12::record(id as nat, payload)),
    ensures
        id == 0x99 ==> crate::biff12::date_system_scan(buffer, at) == Ok::<bool, Seq<char>>(
            payload[0] % 2 == 1,
        ),
        id != 0x99 ==> crate::biff12::date_system_scan(buffer, at)
            == crate::biff12::date_system_scan(
            buffer,
            at + crate::biff12::record(id as nat, payload).len(),
        ),
{
    let start = lemma_record(buffer, at, id, payload);
    assert(buffer[start + 0] == payload[0] && buffer[start + 1] == payload[1]);
    assert(buffer[start + 2] == payload[2] && buffer[start + 3] == payload[3]);
    let a = payload[0] as int;
    let rest = 0x80 * payload[1] + 0x8000 * payload[2] + 0x80_0000 * payload[3];
    assert((a + 2 * rest) % 2 == a % 2);
    assert(a + 2 * rest == payload[0] + 0x100 * payload[1] + 0x1_0000 * payload[2] + 0x100_0000
        * payload[3]);
}

/// A pivot cache over a sheet is brought in step with the new rows of the sheet: its
/// definition (0xb3) asks for a refresh by the third bit of its fourth byte, and the
/// range of its source (0xbb), which stands behind the name of the sheet, ends at the
/// last row and the last column. Everything else stays as it was, and so does the
/// range of a cache over another sheet.
#[verifier::spinoff_prover]
#[verifier::rlimit(40)]
pub proof fn law_pivot_cache_follows_its_sheet(
    def: Seq<u8>,
    source: Seq<u8>,
    name: Seq<char>,
    sheet: Seq<char>,
    last_row: u32,
    last_col: u32,
)
    requires
        4 <= def.len() <= u32::MAX,
        ({
            let units = crate::utf16::encode_units(name);
            let bytes = crate::utf16::le_bytes(units);
            &&& 23 + bytes.len() <= source.len() <= u32::MAX
            &&& source[3] + 0x100 * source[4] + 0x1_0000 * source[5] + 0x100_0000 * source[6]
                == units.len()
            &&& source.subrange(7, (7 + bytes.len()) as int) == bytes
        }),
        (crate::biff12::record(0xb3, def) + crate::biff12::record(0xbb, source)).len()
            <= usize::MAX,
    ensures
        ({
            let old_bytes = crate::biff12::record(0xb3, def) + crate::biff12::record(0xbb, source);
            let flag = crate::biff12::record(0xb3, def).len() - def.len() + 3;
            let range = old_bytes.len() - source.len() + 7 + 2 * crate::utf16::encode_units(
                name,
            ).len();
            let updated = crate::xlsb_patch::updated_cache(old_bytes, sheet, last_row, last_col);
            let new_bytes = match updated {
                Ok(Some(bytes)) => bytes,
                _ => old_bytes,
            };
            &&& updated is Ok
            &&& new_bytes.len() == old_bytes.len()
            &&& new_bytes[flag] / 4 % 2 == 1
            &&& new_bytes[flag] == old_bytes[flag] || new_bytes[flag] == old_bytes[flag] + 4
            &&& forall|i: int|
                0 <= i < old_bytes.len() && i != flag && !(range + 4 <= i < range + 8) && !(range
                    + 12 <= i < range + 16) ==> #[trigger] new_bytes[i] == old_bytes[i]
            &&& name == sheet ==> new_bytes[range + 4] + 0x100 * new_bytes[range + 5] + 0x1_0000
                * new_bytes[range + 6] + 0x100_0000 * new_bytes[range + 7] == last_row
            &&& name == sheet ==> new_bytes[range + 12] + 0x100 * new_bytes[range + 13] + 0x1_0000
                * new_bytes[range + 14] + 0x100_0000 * new_bytes[range + 15] == last_col
            &&& name != sheet ==> forall|i: int|
                range <= i < old_bytes.len() ==> #[trigger] new_bytes[i] == old_bytes[i]
        }),
{
    let first = crate::biff12::record(0xb3, def);
    let second = crate::biff12::record(0xbb, source);
    let bytes = first + second;
    let n = first.len() as int;
    let s1 = lemma_definition_updated(def, second, sheet, last_row, last_col);
    let s2 = lemma_source_updated(s1, n, source, name, sheet, last_row, last_col);
    let range = bytes.len() - source.len() + 7 + 2 * crate::utf16::encode_units(name).len();
    let flag = n - def.len() + 3;
    assert(s2.bytes[flag] == s1.bytes[flag]);
    if !s2.changed {
        assert(s2.bytes =~= bytes);
    }
}

/// The definition of a pivot cache is brought in step.
#[verifier::spinoff_prover]
#[verifier::rlimit(60)]
proof fn lemma_definition_updated(
    def: Seq<u8>,
    second: Seq<u8>,
    sheet: Seq<char>,
    last_row: u32,
    last_col: u32,
) -> (after: CacheState)
    requires
        4 <= def.len() <= u32::MAX,
        (crate::biff12::record(0xb3, def) + second).len() <= usize::MAX,
    ensures
        ({
            let bytes = crate::biff12::record(0xb3, def) + second;
            let n = crate::biff12::record(0xb3, def).len() as int;
            let flag = n - def.len() + 3;
            &&& crate::xlsb_patch::cache_from(
                CacheState { bytes, flagged: false, changed: false },
                0,
                sheet,
                last_row,
                last_col,
            ) == crate::xlsb_patch::cache_from(after, n, sheet, last_row, last_col)
            &&& after.flagged
            &&& after.bytes.len() == bytes.len()
            &&& 0 <= flag < n
            &&& after.bytes[flag] / 4 % 2 == 1
            &&& after.bytes[flag] == bytes[flag] || after.bytes[flag] == bytes[flag] + 4
            &&& forall|i: int|
                0 <= i < bytes.len() && i != flag ==> #[trigger] after.bytes[i] == bytes[i]
            &&& !after.changed ==> after.bytes == bytes
            &&& crate::xlsb_laws::holds(after.bytes, n, second)
        }),
{
    let first = crate::biff12::record(0xb3, def);
    let bytes = first + second;
    let n = first.len() as int;
    let s0 = CacheState { bytes, flagged: false, changed: false };
    assert(bytes.subrange(0, n) =~= first);
    let d1 = lemma_record(bytes, 0, 0xb3, def);
    let r1 = crate::biff12::record_at(bytes, 0)->Ok_0->Some_0;
    let s1 = crate::xlsb_patch::with_refresh(s0, r1);
    assert(crate::xlsb_patch::with_source(s1, r1, sheet, last_row, last_col) == s1);
    assert(r1.data_end == n);
    assert(crate::xlsb_patch::cache_from(s0, 0, sheet, last_row, last_col)
        == crate::xlsb_patch::cache_from(s1, n, sheet, last_row, last_col));
    assert(s1.bytes.subrange(n, n + second.len()) =~= second);
    lemma_flag(bytes[d1 + 3]);
    s1
}

/// A bit that is not set can be set by adding it.
proof fn lemma_flag(flags: u8)
    ensures
        flags / 4 % 2 == 0 || flags / 4 % 2 == 1,
        flags / 4 % 2 == 0 ==> flags <= 251 && ((flags + 4) as u8) == flags + 4 && ((flags
            + 4) as u8) / 4 % 2 == 1,
{
}

/// Overwriting four bytes changes these only.
proof fn lemma_overwritten(s: Seq<u8>, at: int, n: u32)
    requires
        0 <= at,
        at + 4 <= s.len(),
    ensures
        ({
            let new = crate::xlsb_patch::with_u32(s, at, n);
            &&& new.len() == s.len()
            &&& forall|i: int|
                0 <= i < s.len() && !(at <= i < at + 4) ==> #[trigger] new[i] == s[i]
            &&& new[at] + 0x100 * new[at + 1] + 0x1_0000 * new[at + 2] + 0x100_0000 * new[at + 3]
                == n
        }),
{
    let b = crate::big_buffer::le32(n);
    let new = crate::xlsb_patch::with_u32(s, at, n);
    lemma_le32_bytes(n);
    assert(new[at] == b[0] && new[at + 1] == b[1] && new[at + 2] == b[2] && new[at + 3] == b[3]);
}

/// The source of a pivot cache is brought in step.
#[verifier::spinoff_prover]
proof fn lemma_source_updated(
    state: CacheState,
    at: int,
    source: Seq<u8>,
    name: Seq<char>,
    sheet: Seq<char>,
    last_row: u32,
    last_col: u32,
) -> (after: CacheState)
    requires
        state.flagged,
        at >= 0,
        state.bytes.len() <= usize::MAX,
        at + crate::biff12::record(0xbb, source).len() == state.bytes.len(),
        crate::xlsb_laws::holds(state.bytes, at, crate::biff12::record(0xbb, source)),
        ({
            let units = crate::utf16::encode_units(name);
            let bytes = crate::utf16::le_bytes(units);
            &&& 23 + bytes.len() <= source.len() <= u32::MAX
            &&& source[3] + 0x100 * source[4] + 0x1_0000 * source[5] + 0x100_0000 * source[6]
                == units.len()
            &&& source.subrange(7, (7 + bytes.len()) as int) == bytes
        }),
    ensures
        ({
            let bytes = state.bytes;
            let range = bytes.len() - source.len() + 7 + 2 * crate::utf16::encode_units(name).len();
            &&& crate::xlsb_patch::cache_from(state, at, sheet, last_row, last_col) == Ok::<
                CacheState,
                Seq<char>,
            >(after)
            &&& after.bytes.len() == bytes.len()
            &&& at < range
            &&& forall|i: int|
                0 <= i < bytes.len() && !(range + 4 <= i < range + 8) && !(range + 12 <= i < range
                    + 16) ==> #[trigger] after.bytes[i] == bytes[i]
            &&& name == sheet ==> after.bytes[range + 4] + 0x100 * after.bytes[range + 5] + 0x1_0000
                * after.bytes[range + 6] + 0x100_0000 * after.bytes[range + 7] == last_row
            &&& name == sheet ==> after.bytes[range + 12] + 0x100 * after.bytes[range + 13]
                + 0x1_0000 * after.bytes[range + 14] + 0x100_0000 * after.bytes[range + 15]
                == last_col
            &&& name == sheet ==> after.changed
            &&& name != sheet ==> after == state
        }),
{
    let d2 = lemma_record(state.bytes, at, 0xbb, source);
    let r2 = crate::biff12::record_at(state.bytes, at)->Ok_0->Some_0;
    assert(crate::xlsb_patch::with_refresh(state, r2) == state);
    let units = crate::utf16::encode_units(name);
    lemma_source_name(state.bytes, d2, source, name);
    let after = crate::xlsb_patch::with_source(state, r2, sheet, last_row, last_col);
    let range = d2 + 7 + 2 * units.len();
    lemma_overwritten(state.bytes, range + 4, last_row);
    lemma_overwritten(
        crate::xlsb_patch::with_u32(state.bytes, range + 4, last_row),
        range + 12,
        last_col,
    );
    assert(after.bytes.len() == state.bytes.len());
    assert(range == state.bytes.len() - source.len() + 7 + 2 * units.len());
    let end = after.bytes.len() as int;
    assert(crate::biff12::record_at(after.bytes, end) == Ok::<
        Option<crate::biff12::Biff12Record>,
        Seq<char>,
    >(None));
    assert(r2.data_end == end);
    assert(crate::xlsb_patch::cache_from(after, end, sheet, last_row, last_col) == Ok::<
        CacheState,
        Seq<char>,
    >(after));
    assert(crate::xlsb_patch::cache_from(state, at, sheet, last_row, last_col)
        == crate::xlsb_patch::cache_from(after, end, sheet, last_row, last_col));
    if name == sheet {
        assert(after.changed);
        assert(after.bytes == crate::xlsb_patch::with_u32(
            crate::xlsb_patch::with_u32(state.bytes, range + 4, last_row),
            range + 12,
            last_col,
        ));
    } else {
        assert(after == state);
    }
    assert(at < range);
    after
}

/// The bytes of a 32-bit number.
proof fn lemma_le32_bytes(n: u32)
    ensures
        ({
            let b = crate::big_buffer::le32(n);
            b[0] + 0x100 * b[1] + 0x1_0000 * b[2] + 0x100_0000 * b[3] == n
        }),
{
    assert(n == n % 256 + 0x100 * (n / 0x100 % 256) + 0x1_0000 * (n / 0x1_0000 % 256) + 0x100_0000
        * (n / 0x100_0000));
}

/// The name of the sheet that is the source of a pivot cache is read.
proof fn lemma_source_name(buffer: Seq<u8>, start: int, source: Seq<u8>, name: Seq<char>)
    requires
        start >= 0,
        buffer.len() <= usize::MAX,
        start + source.len() <= buffer.len(),
        forall|i: int| 0 <= i < source.len() ==> buffer[start + i] == #[trigger] source[i],
        ({
            let units = crate::utf16::encode_units(name);
            let bytes = crate::utf16::le_bytes(units);
            &&& 23 + bytes.len() <= source.len()
            &&& source[3] + 0x100 * source[4] + 0x1_0000 * source[5] + 0x100_0000 * source[6]
                == units.len()
            &&& source.subrange(7, (7 + bytes.len()) as int) == bytes
        }),
    ensures
        ({
            let count = crate::utf16::encode_units(name).len() as int;
            &&& crate::biff12::le_u32_at(buffer, start + 3) == count
            &&& crate::biff12::utf16_at(buffer, start + 7, count) == Ok::<Seq<char>, Seq<char>>(
                name,
            )
        }),
{
    let units = crate::utf16::encode_units(name);
    let text = crate::utf16::le_bytes(units);
    assert(buffer[start + 3] == source[3] && buffer[start + 4] == source[4]);
    assert(buffer[start + 5] == source[5] && buffer[start + 6] == source[6]);
    assert(buffer.subrange(start + 7, start + 7 + 2 * units.len()) =~= text) by {
        assert forall|i: int| 0 <= i < text.len() implies buffer[start + 7 + i] == text[i] by {
            assert(buffer[start + (7 + i)] == source[7 + i]);
            assert(source.subrange(7, (7 + text.len()) as int)[i] == source[7 + i]);
        }
    }
    crate::utf16::law_le_round_trip(units);
    crate::utf16::law_utf16_round_trip(name);
}

} // verus!
