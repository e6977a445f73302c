//! What holds of the shared strings and the workbook part that the XLSB writer
//! makes and the readers take.

use vstd::prelude::*;
use crate::biff12::{Biff12Record, SharedStrings, VlqFault};
use crate::biff_reader::{Biff, Step};
use crate::xlsb_parts::{unit_count, utf16_bytes, BinSheet};
use crate::xlsb_reader::SheetEntry;

verus! {

/// A number reads back wherever its bytes stand.
proof fn lemma_vlq_holds(buffer: Seq<u8>, at: int, value: u32)
    requires
        crate::xlsb_laws::holds(buffer, at, crate::biff12::vlq(value as nat)),
    ensures
        crate::biff12::vlq_at(buffer, at, 0) == Ok::<(nat, int), VlqFault>(
            (value as nat, at + crate::biff12::vlq(value as nat).len()),
        ),
{
    let bytes = crate::biff12::vlq(value as nat);
    let before = buffer.take(at);
    let after = buffer.skip(at + bytes.len());
    assert(buffer =~= before + bytes + after) by {
        assert(buffer.subrange(at, at + bytes.len()) == bytes);
        assert(buffer =~= buffer.take(at) + buffer.subrange(at, at + bytes.len()) + buffer.skip(
            at + bytes.len(),
        ));
    }
    crate::biff12::law_vlq_round_trip(before, value, after);
}

/// Where the payload of a record starts.
pub open spec fn payload_offset(id: nat, len: nat) -> int {
    (crate::biff12::vlq(id).len() + crate::biff12::vlq(len).len()) as int
}

/// The record that stands at an offset.
pub proof fn lemma_record_holds(buffer: Seq<u8>, at: int, id: u32, payload: Seq<u8>)
    requires
        buffer.len() <= usize::MAX,
        payload.len() <= u32::MAX,
        crate::xlsb_laws::holds(buffer, at, crate::biff12::record(id as nat, payload)),
    ensures
        ({
            let start = at + payload_offset(id as nat, payload.len());
            &&& crate::biff12::vlq_at(buffer, at, 0) matches Ok((i, p1)) && i == id && at < p1
                < start
            &&& crate::biff12::vlq_at(buffer, at, 0) matches Ok((_, p1)) && crate::biff12::vlq_at(
                buffer,
                p1,
                0,
            ) == Ok::<(nat, int), VlqFault>((payload.len(), start))
            &&& crate::biff12::record_at(buffer, at) == Ok::<Option<Biff12Record>, Seq<char>>(
                Some(
                    Biff12Record {
                        header_start: at as usize,
                        data_start: start as usize,
                        data_end: (start + payload.len()) as usize,
                        id,
                        len: payload.len() as u32,
                    },
                ),
            )
            &&& start + payload.len() == at + crate::biff12::record(id as nat, payload).len()
            &&& start + payload.len() <= buffer.len()
            &&& crate::xlsb_laws::holds(buffer, start, payload)
        }),
{
    let ids = crate::biff12::vlq(id as nat);
    let lens = crate::biff12::vlq(payload.len());
    assert(payload.len() % 0x1_0000_0000 == payload.len());
    assert(crate::biff12::record(id as nat, payload) =~= ids + (lens + payload));
    crate::biff12::law_vlq_length(id);
    crate::biff12::law_vlq_length(payload.len() as u32);
    crate::xlsb_laws::lemma_holds_parts(buffer, at, ids, lens + payload);
    crate::xlsb_laws::lemma_holds_parts(buffer, at + ids.len(), lens, payload);
    lemma_vlq_holds(buffer, at, id);
    lemma_vlq_holds(buffer, at + ids.len(), payload.len() as u32);
}

/// What entering a record leads to.
pub proof fn lemma_begin_record(d: Biff, id: u32, payload: Seq<u8>)
    requires
        d.wf(),
        payload.len() <= u32::MAX,
        crate::xlsb_laws::holds(d.buffer, d.pos, crate::biff12::record(id as nat, payload)),
    ensures
        ({
            let start = d.pos + payload_offset(id as nat, payload.len());
            &&& d.begin() == (Step::<Option<u32>> {
                after: Biff {
                    pos: start + payload.len(),
                    record_start: start,
                    record_end: start + payload.len(),
                    ..d
                },
                result: Ok(Some(id)),
            })
            &&& d.pos < start
            &&& start + payload.len() == d.pos + crate::biff12::record(id as nat, payload).len()
            &&& start + payload.len() <= d.buffer.len()
            &&& crate::xlsb_laws::holds(d.buffer, start, payload)
        }),
{
    lemma_record_holds(d.buffer, d.pos, id, payload);
}

/// The payload of a shared-string item.
pub open spec fn item_payload(text: Seq<char>) -> Seq<u8> {
    seq![0u8] + crate::big_buffer::le32(crate::xlsb_cells::low32(unit_count(text) as int))
        + utf16_bytes(text)
}

/// The longest text whose item has a length field that reads back.
pub open spec fn is_short(text: Seq<char>) -> bool {
    5 + 2 * unit_count(text) < 0x20_0000
}

/// The item of a short text is a record.
proof fn lemma_item_is_record(text: Seq<char>)
    requires
        is_short(text),
    ensures
        crate::xlsb_parts::sst_item(text) == crate::biff12::record(0x13, item_payload(text)),
        item_payload(text).len() == 5 + 2 * unit_count(text),
{
    let len = 5 + 2 * unit_count(text);
    let payload = item_payload(text);
    assert(payload.len() == len);
    assert(len % 0x1_0000_0000 == len);
    assert(crate::biff12::vlq(0x13) =~= seq![19u8]);
    reveal_with_fuel(crate::biff12::vlq, 3);
    assert(crate::xlsb_parts::item_length(len as int) =~= crate::biff12::vlq(len) + seq![0u8]);
    assert(crate::xlsb_parts::sst_item(text) =~= crate::biff12::record(0x13, payload));
}

/// The text of an item stands in its payload.
proof fn lemma_item_text(buffer: Seq<u8>, start: int, text: Seq<char>)
    requires
        is_short(text),
        crate::xlsb_laws::holds(buffer, start, item_payload(text)),
    ensures
        crate::biff12::le_u32_at(buffer, start + 1) == unit_count(text),
        start + 5 + 2 * unit_count(text) <= buffer.len(),
        crate::utf16::decode_units(
            crate::utf16::le_units(
                buffer.subrange(start + 5, start + 5 + 2 * unit_count(text) as int),
            ),
        ) == text,
{
    let count = crate::big_buffer::le32(crate::xlsb_cells::low32(unit_count(text) as int));
    let bytes = utf16_bytes(text);
    assert(item_payload(text) =~= seq![0u8] + (count + bytes));
    crate::xlsb_laws::lemma_holds_parts(buffer, start, seq![0u8], count + bytes);
    crate::xlsb_laws::lemma_holds_parts(buffer, start + 1, count, bytes);
    crate::xlsb_laws::lemma_le32(
        buffer,
        start + 1,
        crate::xlsb_cells::low32(unit_count(text) as int),
    );
    crate::utf16::law_le_round_trip(crate::utf16::encode_units(text));
    crate::utf16::law_utf16_round_trip(text);
}

proof fn lemma_items_prefix(strings: Seq<Seq<char>>, k: nat, n: nat)
    requires
        k <= n,
    ensures
        crate::xlsb_parts::sst_items(strings, k).is_prefix_of(
            crate::xlsb_parts::sst_items(strings, n),
        ),
    decreases n - k,
{
    let some = crate::xlsb_parts::sst_items(strings, k);
    assert(some.is_prefix_of(some));
    if k < n {
        let most = crate::xlsb_parts::sst_items(strings, (n - 1) as nat);
        let all = crate::xlsb_parts::sst_items(strings, n);
        lemma_items_prefix(strings, k, (n - 1) as nat);
        assert(most.is_prefix_of(all));
        crate::xlsb_laws::lemma_prefix_trans(some, most, all);
    }
}

/// Where an item stands.
proof fn lemma_item_place(buffer: Seq<u8>, base: int, strings: Seq<Seq<char>>, i: nat)
    requires
        i < strings.len(),
        crate::xlsb_laws::holds(
            buffer,
            base,
            crate::xlsb_parts::sst_items(strings, strings.len()),
        ),
    ensures
        crate::xlsb_laws::holds(
            buffer,
            base + crate::xlsb_parts::sst_items(strings, i).len(),
            crate::xlsb_parts::sst_item(strings[i as int]),
        ),
        crate::xlsb_parts::sst_items(strings, i + 1) == crate::xlsb_parts::sst_items(strings, i)
            + crate::xlsb_parts::sst_item(strings[i as int]),
{
    let all = crate::xlsb_parts::sst_items(strings, strings.len());
    let some = crate::xlsb_parts::sst_items(strings, i + 1);
    lemma_items_prefix(strings, i + 1, strings.len());
    assert(some =~= all.take(some.len() as int));
    assert(all =~= some + all.skip(some.len() as int));
    crate::xlsb_laws::lemma_holds_parts(buffer, base, some, all.skip(some.len() as int));
    crate::xlsb_laws::lemma_holds_parts(
        buffer,
        base,
        crate::xlsb_parts::sst_items(strings, i),
        crate::xlsb_parts::sst_item(strings[i as int]),
    );
}

/// All texts of a table are short enough for their items.
pub open spec fn all_short(strings: Seq<Seq<char>>) -> bool {
    forall|i: int| 0 <= i < strings.len() ==> is_short(#[trigger] strings[i])
}

/// The items are read one after the other.
proof fn lemma_items_read(d: Biff, base: int, strings: Seq<Seq<char>>, i: nat) -> (after: Biff)
    requires
        d.wf(),
        all_short(strings),
        i <= strings.len(),
        crate::xlsb_laws::holds(
            d.buffer,
            base,
            crate::xlsb_parts::sst_items(strings, strings.len()),
        ),
        d.pos == base + crate::xlsb_parts::sst_items(strings, i).len(),
    ensures
        after.wf(),
        after.buffer == d.buffer,
        after.pos == base + crate::xlsb_parts::sst_items(strings, strings.len()).len(),
        crate::xlsb_reader::strings_from(d, strings.take(i as int))
            == crate::xlsb_reader::strings_from(after, strings),
    decreases strings.len() - i,
{
    if i == strings.len() {
        assert(strings.take(i as int) =~= strings);
        d
    } else {
        let text = strings[i as int];
        assert(is_short(strings[i as int]));
        lemma_item_place(d.buffer, base, strings, i);
        lemma_item_is_record(text);
        lemma_begin_record(d, 0x13, item_payload(text));
        let start = d.pos + payload_offset(0x13, item_payload(text).len());
        lemma_item_text(d.buffer, start, text);
        let step = d.shared_strings_step();
        assert(step.result == Ok::<bool, Seq<char>>(true));
        assert(step.after.shared_string_value == Some(text));
        assert(strings.take(i as int).push(text) =~= strings.take(i as int + 1));
        lemma_items_read(step.after, base, strings, i + 1)
    }
}

/// The parts of a shared-string table.
proof fn lemma_table_parts(strings: Seq<Seq<char>>, uses: int)
    ensures
        ({
            let counts = crate::big_buffer::le32(crate::xlsb_cells::low32(strings.len() as int))
                + crate::big_buffer::le32(crate::xlsb_cells::low32(uses));
            crate::xlsb_parts::shared_strings_bin(strings, uses) == crate::biff12::record(
                0x9f,
                counts,
            ) + crate::xlsb_parts::sst_items(strings, strings.len()) + crate::biff12::record(
                0xa0,
                Seq::empty(),
            ) && counts.len() == 8 && crate::biff12::record(0x9f, counts).len() == 11
                && crate::biff12::record(0xa0, Seq::empty()).len() == 3
        }),
{
    let counts = crate::big_buffer::le32(crate::xlsb_cells::low32(strings.len() as int))
        + crate::big_buffer::le32(crate::xlsb_cells::low32(uses));
    reveal_with_fuel(crate::biff12::vlq, 3);
    assert(crate::biff12::vlq(0x9f) =~= seq![159u8, 1u8]);
    assert(crate::biff12::vlq(8) =~= seq![8u8]);
    assert(crate::biff12::vlq(0xa0) =~= seq![160u8, 1u8]);
    assert(crate::biff12::vlq(0) =~= seq![0u8]);
    assert(crate::biff12::record(0xa0, Seq::empty()) =~= seq![160u8, 1u8, 0u8]);
    assert(crate::xlsb_parts::shared_strings_bin(strings, uses) =~= crate::biff12::record(
        0x9f,
        counts,
    ) + crate::xlsb_parts::sst_items(strings, strings.len()) + crate::biff12::record(
        0xa0,
        Seq::empty(),
    ));
}

/// The shared strings that the writer has written are the shared strings that the
/// reader finds, in their order, as long as no text has more than 2^20 - 3 code
/// units.
pub proof fn law_shared_strings_read_back(strings: Seq<Seq<char>>, uses: int)
    requires
        all_short(strings),
        crate::xlsb_parts::shared_strings_bin(strings, uses).len() <= usize::MAX,
    ensures
        crate::xlsb_reader::strings_from(
            crate::biff_reader::decoder_at_start(
                crate::xlsb_parts::shared_strings_bin(strings, uses),
            ),
            Seq::empty(),
        ) == (strings, Ok::<(), Seq<char>>(())),
{
    let buffer = crate::xlsb_parts::shared_strings_bin(strings, uses);
    let counts = crate::big_buffer::le32(crate::xlsb_cells::low32(strings.len() as int))
        + crate::big_buffer::le32(crate::xlsb_cells::low32(uses));
    let header = crate::biff12::record(0x9f, counts);
    let items = crate::xlsb_parts::sst_items(strings, strings.len());
    let end = crate::biff12::record(0xa0, Seq::empty());
    let d0 = crate::biff_reader::decoder_at_start(buffer);
    lemma_table_parts(strings, uses);
    assert(buffer.subrange(0, buffer.len() as int) =~= buffer);
    assert(buffer =~= header + (items + end));
    crate::xlsb_laws::lemma_holds_parts(buffer, 0, header, items + end);
    crate::xlsb_laws::lemma_holds_parts(buffer, 11, items, end);
    lemma_begin_record(d0, 0x9f, counts);
    let d1 = d0.shared_strings_step().after;
    assert(d0.shared_strings_step().result == Ok::<bool, Seq<char>>(true));
    assert(strings.take(0) =~= Seq::<Seq<char>>::empty());
    let d2 = lemma_items_read(d1, 11, strings, 0);
    lemma_begin_record(d2, 0xa0, Seq::empty());
    let d3 = d2.shared_strings_step().after;
    assert(d2.shared_strings_step().result == Ok::<bool, Seq<char>>(true));
    assert(d3.pos == buffer.len());
    assert(crate::xlsb_reader::strings_from(d3, strings) == (strings, Ok::<(), Seq<char>>(())));
}

/// The items are scanned one after the other.
proof fn lemma_items_scanned(
    buffer: Seq<u8>,
    base: int,
    strings: Seq<Seq<char>>,
    i: nat,
    table: SharedStrings,
)
    requires
        buffer.len() <= usize::MAX,
        all_short(strings),
        i <= strings.len(),
        crate::xlsb_laws::holds(
            buffer,
            base,
            crate::xlsb_parts::sst_items(strings, strings.len()),
        ),
        table.values == strings.take(i as int),
    ensures
        crate::biff12::sst_scan(
            buffer,
            base + crate::xlsb_parts::sst_items(strings, i).len(),
            table,
        ) == crate::biff12::sst_scan(
            buffer,
            base + crate::xlsb_parts::sst_items(strings, strings.len()).len(),
            SharedStrings { values: strings, ..table },
        ),
    decreases strings.len() - i,
{
    if i == strings.len() {
        assert(strings.take(i as int) =~= strings);
    } else {
        let text = strings[i as int];
        let at = base + crate::xlsb_parts::sst_items(strings, i).len();
        assert(is_short(strings[i as int]));
        lemma_item_place(buffer, base, strings, i);
        lemma_item_is_record(text);
        lemma_record_holds(buffer, at, 0x13, item_payload(text));
        let start = at + payload_offset(0x13, item_payload(text).len());
        lemma_item_text(buffer, start, text);
        let next = SharedStrings { values: table.values.push(text), ..table };
        assert(strings.take(i as int).push(text) =~= strings.take(i as int + 1));
        lemma_items_scanned(buffer, base, strings, i + 1, next);
    }
}

/// A part of shared strings with the given counts in its header.
pub open spec fn table_bin(strings: Seq<Seq<char>>, total: u32, unique: u32) -> Seq<u8> {
    crate::biff12::record(
        0x9f,
        crate::big_buffer::le32(total) + crate::big_buffer::le32(unique),
    ) + crate::xlsb_parts::sst_items(strings, strings.len()) + crate::biff12::record(
        0xa0,
        Seq::empty(),
    )
}

/// The table that is parsed from a part of shared strings holds the texts in their
/// order, the counts of the header whatever they are, and the place for more texts
/// before the end mark.
pub proof fn law_counted_strings_parse_back(
    strings: Seq<Seq<char>>,
    total: u32,
    unique: u32,
)
    requires
        all_short(strings),
        table_bin(strings, total, unique).len() <= usize::MAX,
    ensures
        crate::biff12::shared_strings_of(table_bin(strings, total, unique)) == Ok::<
            SharedStrings,
            Seq<char>,
        >(
            SharedStrings {
                values: strings,
                total: total as int,
                unique: unique as int,
                end_sst_offset: table_bin(strings, total, unique).len() - 3,
            },
        ),
{
    let buffer = table_bin(strings, total, unique);
    let header = crate::biff12::record(
        0x9f,
        crate::big_buffer::le32(total) + crate::big_buffer::le32(unique),
    );
    let items = crate::xlsb_parts::sst_items(strings, strings.len());
    let end = crate::biff12::record(0xa0, Seq::empty());
    lemma_frame_lengths(total, unique);
    assert(buffer.subrange(0, buffer.len() as int) =~= buffer);
    assert(buffer =~= header + (items + end));
    crate::xlsb_laws::lemma_holds_parts(buffer, 0, header, items + end);
    crate::xlsb_laws::lemma_holds_parts(buffer, 11, items, end);
    let empty = SharedStrings {
        values: Seq::empty(),
        total: 0,
        unique: 0,
        end_sst_offset: buffer.len() as int,
    };
    lemma_header_scanned(buffer, total, unique, empty);
    let counted = SharedStrings { total: total as int, unique: unique as int, ..empty };
    assert(strings.take(0) =~= Seq::<Seq<char>>::empty());
    lemma_items_scanned(buffer, 11, strings, 0, counted);
    lemma_end_scanned(
        buffer,
        11 + items.len() as int,
        SharedStrings { values: strings, ..counted },
    );
}

proof fn lemma_frame_lengths(total: u32, unique: u32)
    ensures
        crate::biff12::record(
            0x9f,
            crate::big_buffer::le32(total) + crate::big_buffer::le32(unique),
        ).len() == 11,
        crate::biff12::record(0xa0, Seq::empty()).len() == 3,
{
    reveal_with_fuel(crate::biff12::vlq, 3);
    assert(crate::biff12::vlq(0x9f) =~= seq![159u8, 1u8]);
    assert(crate::biff12::vlq(8) =~= seq![8u8]);
    assert(crate::biff12::vlq(0xa0) =~= seq![160u8, 1u8]);
    assert(crate::biff12::vlq(0) =~= seq![0u8]);
}

/// The table that is parsed from written shared strings holds the texts in their
/// order and the place for more before the end mark. Of the two counts in the
/// header the first is that of the texts, the second that of their uses.
pub proof fn law_shared_strings_parse_back(strings: Seq<Seq<char>>, uses: int)
    requires
        all_short(strings),
        crate::xlsb_parts::shared_strings_bin(strings, uses).len() <= usize::MAX,
    ensures
        crate::biff12::shared_strings_of(crate::xlsb_parts::shared_strings_bin(strings, uses))
            == Ok::<SharedStrings, Seq<char>>(
            SharedStrings {
                values: strings,
                total: crate::xlsb_cells::low32(strings.len() as int) as int,
                unique: crate::xlsb_cells::low32(uses) as int,
                end_sst_offset: crate::xlsb_parts::shared_strings_bin(strings, uses).len() - 3,
            },
        ),
{
    lemma_table_parts(strings, uses);
    law_counted_strings_parse_back(
        strings,
        crate::xlsb_cells::low32(strings.len() as int),
        crate::xlsb_cells::low32(uses),
    );
}

/// The header is scanned.
proof fn lemma_header_scanned(buffer: Seq<u8>, n: u32, m: u32, table: SharedStrings)
    requires
        buffer.len() <= usize::MAX,
        crate::xlsb_laws::holds(
            buffer,
            0,
            crate::biff12::record(0x9f, crate::big_buffer::le32(n) + crate::big_buffer::le32(m)),
        ),
        crate::biff12::record(
            0x9f,
            crate::big_buffer::le32(n) + crate::big_buffer::le32(m),
        ).len() == 11,
    ensures
        crate::biff12::sst_scan(buffer, 0, table) == crate::biff12::sst_scan(
            buffer,
            11,
            SharedStrings { total: n as int, unique: m as int, ..table },
        ),
{
    let counts = crate::big_buffer::le32(n) + crate::big_buffer::le32(m);
    lemma_record_holds(buffer, 0, 0x9f, counts);
    let start = payload_offset(0x9f, 8);
    crate::xlsb_laws::lemma_holds_parts(
        buffer,
        start,
        crate::big_buffer::le32(n),
        crate::big_buffer::le32(m),
    );
    crate::xlsb_laws::lemma_le32(buffer, start, n);
    crate::xlsb_laws::lemma_le32(buffer, start + 4, m);
}

/// The end mark is scanned, and nothing follows it.
proof fn lemma_end_scanned(buffer: Seq<u8>, at: int, table: SharedStrings)
    requires
        buffer.len() <= usize::MAX,
        crate::xlsb_laws::holds(buffer, at, crate::biff12::record(0xa0, Seq::empty())),
        crate::biff12::record(0xa0, Seq::empty()).len() == 3,
        at + 3 == buffer.len(),
    ensures
        crate::biff12::sst_scan(buffer, at, table) == Ok::<SharedStrings, Seq<char>>(
            SharedStrings { end_sst_offset: at, ..table },
        ),
{
    lemma_record_holds(buffer, at, 0xa0, Seq::empty());
    assert(crate::biff12::sst_scan(buffer, at + 3, SharedStrings { end_sst_offset: at, ..table })
        == Ok::<SharedStrings, Seq<char>>(SharedStrings { end_sst_offset: at, ..table }));
}

/// The bytes of a text stand in a record.
#[verifier::spinoff_prover]
proof fn lemma_string_field(d: Biff, offset: int, text: Seq<char>)
    requires
        d.wf(),
        offset >= 0,
        d.record_start + offset + 2 * unit_count(text) <= d.record_end,
        crate::xlsb_laws::holds(d.buffer, d.record_start + offset, utf16_bytes(text)),
    ensures
        d.string(offset, unit_count(text) as int) == Ok::<Seq<char>, Seq<char>>(text),
{
    crate::utf16::law_le_round_trip(crate::utf16::encode_units(text));
    crate::utf16::law_utf16_round_trip(text);
}

/// A 32-bit field stands in a record.
proof fn lemma_dword_field(d: Biff, offset: int, n: u32)
    requires
        d.wf(),
        offset >= 0,
        d.record_start + offset + 4 <= d.record_end,
        crate::xlsb_laws::holds(d.buffer, d.record_start + offset, crate::big_buffer::le32(n)),
    ensures
        d.dword(offset) == Ok::<u32, Seq<char>>(n),
{
    crate::xlsb_laws::lemma_le32(d.buffer, d.record_start + offset, n);
}

/// The record of a sheet reads back: its number, its name and its relationship id.
pub proof fn law_sheet_record_reads_back(d: Biff, n: int, sheet: BinSheet)
    requires
        d.wf(),
        n >= 0,
        crate::xlsb_parts::sheet_payload(n, sheet).len() <= u32::MAX,
        crate::xlsb_laws::holds(d.buffer, d.pos, crate::xlsb_parts::sheet_record(n, sheet)),
    ensures
        ({
            let step = d.workbook_step();
            &&& step.result == Ok::<bool, Seq<char>>(true)
            &&& step.after.wf()
            &&& step.after.buffer == d.buffer
            &&& step.after.pos == d.pos + crate::xlsb_parts::sheet_record(n, sheet).len()
            &&& step.after.is_sheet
            &&& step.after.workbook_name == Some(sheet.name)
            &&& step.after.rec_id == Some(crate::xlsb_parts::sheet_rel_id(n))
            &&& step.after.workbook_id == n % 0x1_0000_0000
            &&& step.after.record_start == d.begin().after.record_start
        }),
{
    let payload = crate::xlsb_parts::sheet_payload(n, sheet);
    let r_id = crate::xlsb_parts::sheet_rel_id(n);
    let r = unit_count(r_id) as int;
    lemma_begin_record(d, 0x9c, payload);
    let start = d.pos + payload_offset(0x9c, payload.len());
    lemma_sheet_fields(d.buffer, start, n, sheet);
    let b = Biff { is_sheet: false, ..d.begin().after };
    lemma_sheet_fields_read(b, crate::xlsb_cells::low32(n), r_id, sheet.name);
}

/// The bytes that a sheet record starts with.
proof fn lemma_sheet_state(n: int, sheet: BinSheet)
    ensures
        ({
            let payload = crate::xlsb_parts::sheet_payload(n, sheet);
            &&& payload.len() >= 4
            &&& payload[0] == if sheet.hidden {
                1u8
            } else {
                0u8
            }
            &&& payload[1] == 0
            &&& payload[2] == 0
            &&& payload[3] == 0
        }),
{
    let state: u32 = if sheet.hidden {
        1
    } else {
        0
    };
    let first = crate::big_buffer::le32(state);
    assert(first[0] == state && first[1] == 0 && first[2] == 0 && first[3] == 0);
}

/// The record of a sheet starts with a number that is one where the sheet is hidden,
/// and zero where it is not.
pub proof fn law_sheet_record_tells_hidden(d: Biff, n: int, sheet: BinSheet)
    requires
        d.wf(),
        n >= 0,
        crate::xlsb_parts::sheet_payload(n, sheet).len() <= u32::MAX,
        crate::xlsb_laws::holds(d.buffer, d.pos, crate::xlsb_parts::sheet_record(n, sheet)),
    ensures
        ({
            let after = d.begin().after;
            &&& d.begin().result == Ok::<Option<u32>, Seq<char>>(Some(0x9c))
            &&& d.buffer[after.record_start] == 1 <==> sheet.hidden
            &&& d.buffer[after.record_start] == 0 <==> !sheet.hidden
            &&& d.buffer[after.record_start + 1] == 0
            &&& d.buffer[after.record_start + 2] == 0
            &&& d.buffer[after.record_start + 3] == 0
        }),
{
    let payload = crate::xlsb_parts::sheet_payload(n, sheet);
    lemma_begin_record(d, 0x9c, payload);
    let start = d.begin().after.record_start;
    lemma_sheet_state(n, sheet);
    crate::xlsb_laws::lemma_holds_byte(d.buffer, start, payload, 0);
    crate::xlsb_laws::lemma_holds_byte(d.buffer, start, payload, 1);
    crate::xlsb_laws::lemma_holds_byte(d.buffer, start, payload, 2);
    crate::xlsb_laws::lemma_holds_byte(d.buffer, start, payload, 3);
}

/// The fields of a sheet record are read.
proof fn lemma_sheet_fields_read(b: Biff, id: u32, r_id: Seq<char>, name: Seq<char>)
    requires
        b.wf(),
        b.record_start + 16 + 2 * unit_count(r_id) + 2 * unit_count(name) <= b.record_end,
        unit_count(r_id) < u32::MAX,
        unit_count(name) < u32::MAX,
        crate::xlsb_laws::holds(b.buffer, b.record_start + 4, crate::big_buffer::le32(id)),
        crate::xlsb_laws::holds(
            b.buffer,
            b.record_start + 8,
            crate::big_buffer::le32(crate::xlsb_cells::low32(unit_count(r_id) as int)),
        ),
        crate::xlsb_laws::holds(b.buffer, b.record_start + 12, utf16_bytes(r_id)),
        crate::xlsb_laws::holds(
            b.buffer,
            b.record_start + 12 + 2 * unit_count(r_id),
            crate::big_buffer::le32(crate::xlsb_cells::low32(unit_count(name) as int)),
        ),
        crate::xlsb_laws::holds(
            b.buffer,
            b.record_start + 16 + 2 * unit_count(r_id),
            utf16_bytes(name),
        ),
    ensures
        b.sheet_record() == (Step::<bool> {
            after: Biff {
                workbook_id: id,
                rec_id: Some(r_id),
                workbook_name: Some(name),
                is_sheet: true,
                ..b
            },
            result: Ok(true),
        }),
{
    let r = unit_count(r_id) as int;
    lemma_dword_field(b, 4, id);
    let b1 = Biff { workbook_id: id, ..b };
    lemma_text_field(b1, 8, r_id);
    assert(b1.nullable_string(8) == Ok::<(Option<Seq<char>>, int), Seq<char>>(
        (Some(r_id), 12 + 2 * r),
    ));
    let b2 = Biff { rec_id: Some(r_id), ..b1 };
    lemma_text_field(b2, 12 + 2 * r, name);
}

/// A text with its length in front stands in a record.
pub proof fn lemma_text_field(d: Biff, offset: int, text: Seq<char>)
    requires
        d.wf(),
        offset >= 0,
        unit_count(text) <= u32::MAX,
        d.record_start + offset + 4 + 2 * unit_count(text) <= d.record_end,
        crate::xlsb_laws::holds(
            d.buffer,
            d.record_start + offset,
            crate::big_buffer::le32(crate::xlsb_cells::low32(unit_count(text) as int)),
        ),
        crate::xlsb_laws::holds(d.buffer, d.record_start + offset + 4, utf16_bytes(text)),
    ensures
        d.dword(offset) == Ok::<u32, Seq<char>>(unit_count(text) as u32),
        d.string(offset + 4, unit_count(text) as int) == Ok::<Seq<char>, Seq<char>>(text),
{
    lemma_dword_field(d, offset, crate::xlsb_cells::low32(unit_count(text) as int));
    lemma_string_field(d, offset + 4, text);
}

/// Where the fields of a sheet record stand.
proof fn lemma_sheet_fields(buffer: Seq<u8>, start: int, n: int, sheet: BinSheet)
    requires
        crate::xlsb_laws::holds(buffer, start, crate::xlsb_parts::sheet_payload(n, sheet)),
    ensures
        ({
            let r_id = crate::xlsb_parts::sheet_rel_id(n);
            let r = unit_count(r_id) as int;
            let name = unit_count(sheet.name) as int;
            &&& crate::xlsb_laws::holds(
                buffer,
                start + 4,
                crate::big_buffer::le32(crate::xlsb_cells::low32(n)),
            )
            &&& crate::xlsb_laws::holds(
                buffer,
                start + 8,
                crate::big_buffer::le32(crate::xlsb_cells::low32(r)),
            )
            &&& crate::xlsb_laws::holds(buffer, start + 12, utf16_bytes(r_id))
            &&& crate::xlsb_laws::holds(
                buffer,
                start + 12 + 2 * r,
                crate::big_buffer::le32(crate::xlsb_cells::low32(name)),
            )
            &&& crate::xlsb_laws::holds(buffer, start + 16 + 2 * r, utf16_bytes(sheet.name))
            &&& crate::xlsb_parts::sheet_payload(n, sheet).len() == 16 + 2 * r + 2 * name
        }),
{
    let r_id = crate::xlsb_parts::sheet_rel_id(n);
    let r = unit_count(r_id) as int;
    let hidden = crate::big_buffer::le32(
        if sheet.hidden {
            1u32
        } else {
            0u32
        },
    );
    let id = crate::big_buffer::le32(crate::xlsb_cells::low32(n));
    let r_count = crate::big_buffer::le32(crate::xlsb_cells::low32(r));
    let n_count = crate::big_buffer::le32(
        crate::xlsb_cells::low32(unit_count(sheet.name) as int),
    );
    let a = n_count + utf16_bytes(sheet.name);
    let b = utf16_bytes(r_id) + a;
    let c = r_count + b;
    let e = id + c;
    assert(crate::xlsb_parts::sheet_payload(n, sheet) =~= hidden + e);
    crate::xlsb_laws::lemma_holds_parts(buffer, start, hidden, e);
    crate::xlsb_laws::lemma_holds_parts(buffer, start + 4, id, c);
    crate::xlsb_laws::lemma_holds_parts(buffer, start + 8, r_count, b);
    crate::xlsb_laws::lemma_holds_parts(buffer, start + 12, utf16_bytes(r_id), a);
    crate::xlsb_laws::lemma_holds_parts(
        buffer,
        start + 12 + 2 * r,
        n_count,
        utf16_bytes(sheet.name),
    );
}

/// The sheets as the reader lists them.
pub open spec fn listed(sheets: Seq<BinSheet>, n: nat) -> Seq<SheetEntry> {
    Seq::new(
        n,
        |i: int|
            SheetEntry {
                name: sheets[i].name,
                r_id: crate::xlsb_parts::sheet_rel_id(i + 1),
                path: None,
            },
    )
}

/// The sheet records are read one after the other.
proof fn lemma_sheets_read(d: Biff, sheets: Seq<BinSheet>, n: nat, rest: Seq<u8>) -> (after: Biff)
    requires
        d.wf(),
        n <= sheets.len(),
        forall|i: int|
            0 <= i < sheets.len() ==> crate::xlsb_parts::sheet_payload(
                i + 1,
                #[trigger] sheets[i],
            ).len() <= u32::MAX,
        crate::xlsb_laws::holds(
            d.buffer,
            d.pos,
            crate::xlsb_parts::sheet_records(sheets, n) + rest,
        ),
    ensures
        after.wf(),
        after.buffer == d.buffer,
        after.pos == d.pos + crate::xlsb_parts::sheet_records(sheets, n).len(),
        crate::xlsb_reader::sheets_from(d, Seq::empty()) == crate::xlsb_reader::sheets_from(
            after,
            listed(sheets, n),
        ),
    decreases n,
{
    if n == 0 {
        assert(listed(sheets, 0) =~= Seq::<SheetEntry>::empty());
        d
    } else {
        let fewer = crate::xlsb_parts::sheet_records(sheets, (n - 1) as nat);
        let here = crate::xlsb_parts::sheet_record(n as int, sheets[n - 1]);
        assert(crate::xlsb_parts::sheet_records(sheets, n) + rest =~= fewer + (here + rest));
        let mid = lemma_sheets_read(d, sheets, (n - 1) as nat, here + rest);
        crate::xlsb_laws::lemma_holds_parts(d.buffer, d.pos, fewer, here + rest);
        crate::xlsb_laws::lemma_holds_parts(d.buffer, d.pos + fewer.len(), here, rest);
        assert(crate::xlsb_parts::sheet_payload(n - 1 + 1, sheets[n - 1]).len() <= u32::MAX);
        law_sheet_record_reads_back(mid, n as int, sheets[n - 1]);
        let after = mid.workbook_step().after;
        assert(listed(sheets, (n - 1) as nat).push(
            SheetEntry {
                name: sheets[n - 1].name,
                r_id: crate::xlsb_parts::sheet_rel_id(n as int),
                path: None,
            },
        ) =~= listed(sheets, n));
        after
    }
}

/// The ids of workbook records that are no sheet records.
pub open spec fn no_sheet() -> spec_fn(u32) -> bool {
    |id: u32| id != 0x9c
}

/// Records that are no sheet records add no sheets.
proof fn lemma_no_sheets_read(
    d: Biff,
    a: Seq<u8>,
    b: Seq<u8>,
    c: Seq<u8>,
    found: Seq<SheetEntry>,
) -> (after: Biff)
    requires
        d.wf(),
        d.buffer == a + b + c,
        a.len() <= d.pos <= a.len() + b.len(),
        b.len() <= usize::MAX,
        crate::xlsb_laws::records_from(b, d.pos - a.len(), no_sheet()),
    ensures
        after.wf(),
        after.buffer == d.buffer,
        after.pos == a.len() + b.len(),
        crate::xlsb_reader::sheets_from(d, found) == crate::xlsb_reader::sheets_from(after, found),
    decreases d.buffer.len() - d.pos,
{
    let p = d.pos - a.len();
    if p == b.len() {
        d
    } else {
        crate::xlsb_laws::lemma_begin_within(d, a, b, c, p);
        let after = d.workbook_step().after;
        assert(d.workbook_step().result == Ok::<bool, Seq<char>>(true));
        assert(!after.is_sheet);
        lemma_no_sheets_read(after, a, b, c, found)
    }
}

/// The sheets of a written workbook are the sheets that the reader lists, in their
/// order and with their names. The records around those of the sheets have to be
/// whole and no sheet records themselves, and the name of a sheet has to fit into a
/// record.
#[verifier::rlimit(40)]
#[verifier::spinoff_prover]
pub proof fn law_sheet_names_read_back(
    t: crate::xlsb_templates::Templates,
    sheets: Seq<BinSheet>,
    autofilter_is_on: bool,
    rest: Seq<u8>,
)
    requires
        rest == t.workbook_bin_middle + (if autofilter_is_on {
            crate::xlsb_parts::filter_section(t, sheets)
        } else {
            Seq::empty()
        }) + t.workbook_bin_end,
        crate::xlsb_parts::workbook_bin(t, sheets, autofilter_is_on).len() <= usize::MAX,
        crate::xlsb_laws::records_from(t.workbook_bin_start, 0, no_sheet()),
        crate::xlsb_laws::records_from(rest, 0, no_sheet()),
        forall|i: int|
            0 <= i < sheets.len() ==> crate::xlsb_parts::sheet_payload(
                i + 1,
                #[trigger] sheets[i],
            ).len() <= u32::MAX,
    ensures
        crate::xlsb_reader::sheets_from(
            crate::biff_reader::decoder_at_start(
                crate::xlsb_parts::workbook_bin(t, sheets, autofilter_is_on),
            ),
            Seq::empty(),
        ) == (listed(sheets, sheets.len()), Ok::<(), Seq<char>>(())),
{
    let buffer = crate::xlsb_parts::workbook_bin(t, sheets, autofilter_is_on);
    let start = t.workbook_bin_start;
    let records = crate::xlsb_parts::sheet_records(sheets, sheets.len());
    let d0 = crate::biff_reader::decoder_at_start(buffer);
    assert(buffer =~= start + records + rest);
    assert(buffer =~= Seq::<u8>::empty() + start + (records + rest));
    let d1 = lemma_no_sheets_read(d0, Seq::empty(), start, records + rest, Seq::empty());
    assert(buffer.subrange(start.len() as int, buffer.len() as int) =~= records + rest);
    let d2 = lemma_sheets_read(d1, sheets, sheets.len(), rest);
    assert(buffer =~= (start + records) + rest + Seq::<u8>::empty());
    let d3 = lemma_no_sheets_read(
        d2,
        start + records,
        rest,
        Seq::empty(),
        listed(sheets, sheets.len()),
    );
    assert(d3.pos == buffer.len());
    assert(crate::xlsb_reader::sheets_from(d3, listed(sheets, sheets.len())) == (
        listed(sheets, sheets.len()),
        Ok::<(), Seq<char>>(()),
    ));
}

/// In the workbook part that the writer makes, the record of every sheet starts with
/// the number one where the sheet is hidden, and with zero where it is not.
#[verifier::spinoff_prover]
#[verifier::rlimit(40)]
pub proof fn law_hidden_sheets_are_marked(
    t: crate::xlsb_templates::Templates,
    sheets: Seq<BinSheet>,
    autofilter_is_on: bool,
    i: int,
) -> (at: int)
    requires
        0 <= i < sheets.len(),
        crate::xlsb_parts::workbook_bin(t, sheets, autofilter_is_on).len() <= usize::MAX,
        crate::xlsb_parts::sheet_payload(i + 1, sheets[i]).len() <= u32::MAX,
    ensures
        ({
            let buffer = crate::xlsb_parts::workbook_bin(t, sheets, autofilter_is_on);
            let d = Biff { pos: at, ..crate::biff_reader::decoder_at_start(buffer) };
            let step = d.workbook_step();
            let start = step.after.record_start;
            &&& d.wf()
            &&& step.result == Ok::<bool, Seq<char>>(true)
            &&& step.after.is_sheet
            &&& step.after.workbook_name == Some(sheets[i].name)
            &&& buffer[start] == 1 <==> sheets[i].hidden
            &&& buffer[start] == 0 <==> !sheets[i].hidden
            &&& buffer[start + 1] == 0 && buffer[start + 2] == 0 && buffer[start + 3] == 0
        }),
{
    let at = lemma_record_stands(t, sheets, autofilter_is_on, i);
    lemma_marked_at(
        crate::xlsb_parts::workbook_bin(t, sheets, autofilter_is_on),
        at,
        i + 1,
        sheets[i],
    );
    at
}

/// The record of a sheet stands in the workbook part.
proof fn lemma_record_stands(
    t: crate::xlsb_templates::Templates,
    sheets: Seq<BinSheet>,
    autofilter_is_on: bool,
    i: int,
) -> (at: int)
    requires
        0 <= i < sheets.len(),
    ensures
        at >= 0,
        crate::xlsb_laws::holds(
            crate::xlsb_parts::workbook_bin(t, sheets, autofilter_is_on),
            at,
            crate::xlsb_parts::sheet_record(i + 1, sheets[i]),
        ),
{
    let buffer = crate::xlsb_parts::workbook_bin(t, sheets, autofilter_is_on);
    let start = t.workbook_bin_start;
    let records = crate::xlsb_parts::sheet_records(sheets, sheets.len());
    let some = crate::xlsb_parts::sheet_records(sheets, i as nat);
    let here = crate::xlsb_parts::sheet_record(i + 1, sheets[i]);
    let at = (start.len() + some.len()) as int;
    let rest = t.workbook_bin_middle + (if autofilter_is_on {
        crate::xlsb_parts::filter_section(t, sheets)
    } else {
        Seq::empty()
    }) + t.workbook_bin_end;
    assert(buffer =~= start + records + rest);
    lemma_sheet_stands(sheets, i as nat, sheets.len());
    lemma_held_inside(start, records, rest, some.len() as int, here);
    at
}

/// A sheet record is read where it stands, and tells whether the sheet is hidden.
proof fn lemma_marked_at(buffer: Seq<u8>, at: int, n: int, sheet: BinSheet)
    requires
        buffer.len() <= usize::MAX,
        at >= 0,
        n >= 0,
        crate::xlsb_parts::sheet_payload(n, sheet).len() <= u32::MAX,
        crate::xlsb_laws::holds(buffer, at, crate::xlsb_parts::sheet_record(n, sheet)),
    ensures
        ({
            let d = Biff { pos: at, ..crate::biff_reader::decoder_at_start(buffer) };
            let step = d.workbook_step();
            let start = step.after.record_start;
            &&& d.wf()
            &&& step.result == Ok::<bool, Seq<char>>(true)
            &&& step.after.is_sheet
            &&& step.after.workbook_name == Some(sheet.name)
            &&& buffer[start] == 1 <==> sheet.hidden
            &&& buffer[start] == 0 <==> !sheet.hidden
            &&& buffer[start + 1] == 0 && buffer[start + 2] == 0 && buffer[start + 3] == 0
        }),
{
    let d = Biff { pos: at, ..crate::biff_reader::decoder_at_start(buffer) };
    law_sheet_record_reads_back(d, n, sheet);
    law_sheet_record_tells_hidden(d, n, sheet);
}

/// What stands in a part stands in the whole.
proof fn lemma_held_inside(front: Seq<u8>, part: Seq<u8>, back: Seq<u8>, at: int, bytes: Seq<u8>)
    requires
        0 <= at,
        at + bytes.len() <= part.len(),
        part.subrange(at, at + bytes.len()) == bytes,
    ensures
        crate::xlsb_laws::holds(front + part + back, front.len() + at, bytes),
{
    let all = front + part + back;
    assert forall|k: int| 0 <= k < bytes.len() implies all[front.len() + at + k] == bytes[k] by {
        assert(part.subrange(at, at + bytes.len())[k] == part[at + k]);
    }
    assert(all.subrange(front.len() + at, front.len() + at + bytes.len()) =~= bytes);
}

/// Where the record of a sheet stands.
proof fn lemma_sheet_stands(sheets: Seq<BinSheet>, i: nat, n: nat)
    requires
        i < n,
    ensures
        ({
            let records = crate::xlsb_parts::sheet_records(sheets, n);
            let some = crate::xlsb_parts::sheet_records(sheets, i);
            let here = crate::xlsb_parts::sheet_record(i as int + 1, sheets[i as int]);
            &&& some.len() + here.len() <= records.len()
            &&& records.subrange(some.len() as int, (some.len() + here.len()) as int) == here
        }),
    decreases n,
{
    let records = crate::xlsb_parts::sheet_records(sheets, n);
    let some = crate::xlsb_parts::sheet_records(sheets, i);
    let here = crate::xlsb_parts::sheet_record(i as int + 1, sheets[i as int]);
    if i + 1 == n {
        assert(records.subrange(some.len() as int, (some.len() + here.len()) as int) =~= here);
    } else {
        lemma_sheet_stands(sheets, i, (n - 1) as nat);
        let fewer = crate::xlsb_parts::sheet_records(sheets, (n - 1) as nat);
        assert(records.subrange(some.len() as int, (some.len() + here.len()) as int)
            =~= fewer.subrange(some.len() as int, (some.len() + here.len()) as int));
    }
}

/// A sheet that is added last stands in the workbook part of the archive, under its
/// name, with the number one where it was added as hidden and zero where it was not.
pub proof fn law_added_sheet_is_marked(
    book: crate::xlsb_writer::XlsbBook,
    name: Seq<char>,
    hidden: bool,
) -> (at: int)
    requires
        ({
            let after = book.with_sheet(name, hidden);
            let n = after.sheets.len() as int;
            &&& crate::xlsb_parts::workbook_bin(
                after.templates,
                after.sheets,
                after.autofilter_is_on,
            ).len() <= usize::MAX
            &&& crate::xlsb_parts::sheet_payload(n, after.sheets[n - 1]).len() <= u32::MAX
        }),
    ensures
        ({
            let after = book.with_sheet(name, hidden);
            let part = after.archive()[after.entries.len() as int + 2];
            let d = Biff { pos: at, ..crate::biff_reader::decoder_at_start(part.bytes) };
            let step = d.workbook_step();
            let start = step.after.record_start;
            &&& part.name == "xl/workbook.bin"@
            &&& step.result == Ok::<bool, Seq<char>>(true)
            &&& step.after.is_sheet
            &&& step.after.workbook_name == Some(after.sheets.last().name)
            &&& part.bytes[start] == 1 <==> hidden
            &&& part.bytes[start] == 0 <==> !hidden
            &&& part.bytes[start + 1] == 0 && part.bytes[start + 2] == 0 && part.bytes[start + 3]
                == 0
        }),
{
    let after = book.with_sheet(name, hidden);
    let i = after.sheets.len() - 1;
    law_hidden_sheets_are_marked(after.templates, after.sheets, after.autofilter_is_on, i)
}

} // verus!
