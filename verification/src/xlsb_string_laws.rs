//! What the XLSB reader makes of shared strings that an update has added to.

use vstd::prelude::*;
use crate::biff12::{Biff12Record, SharedStrings};
use crate::biff_reader::Biff;
use crate::xlsb_package::XlsbPackage;
use crate::xlsb_update_rows::BinStrings;

verus! {

/// The reader and the updater take the same texts from a part of shared strings
/// that the updater accepts.
pub proof fn law_reader_and_updater_agree(d: Biff, before: SharedStrings, after: SharedStrings)
    requires
        d.wf(),
        crate::biff12::sst_scan(d.buffer, d.pos, before) == Ok::<SharedStrings, Seq<char>>(after),
    ensures
        crate::xlsb_reader::strings_from(d, before.values) == (
            after.values,
            Ok::<(), Seq<char>>(()),
        ),
    decreases d.buffer.len() - d.pos,
{
    let buf = d.buffer;
    crate::biff12::lemma_record_bounds(buf, d.pos);
    if let Ok(Some(rec)) = crate::biff12::record_at(buf, d.pos) {
        assert(buf =~= Seq::<u8>::empty() + buf + Seq::<u8>::empty());
        crate::xlsb_laws::lemma_begin_within(d, Seq::empty(), buf, Seq::empty(), d.pos);
        let next = d.shared_strings_step().after;
        lemma_step_agrees(d, rec, before);
        law_reader_and_updater_agree(
            next,
            crate::biff12::sst_step(buf, rec, before)->Ok_0,
            after,
        );
    }
}

#[verifier::spinoff_prover]
proof fn lemma_step_agrees(d: Biff, rec: Biff12Record, before: SharedStrings)
    requires
        d.wf(),
        crate::biff12::record_at(d.buffer, d.pos) == Ok::<Option<Biff12Record>, Seq<char>>(
            Some(rec),
        ),
        d.begin().result == Ok::<Option<u32>, Seq<char>>(Some(rec.id)),
        d.begin().after == (Biff {
            pos: rec.data_end as int,
            record_start: rec.data_start as int,
            record_end: rec.data_end as int,
            ..d
        }),
        crate::biff12::sst_step(d.buffer, rec, before) is Ok,
    ensures
        d.shared_strings_step().result == Ok::<bool, Seq<char>>(true),
        d.shared_strings_step().after.wf(),
        d.shared_strings_step().after.buffer == d.buffer,
        d.shared_strings_step().after.pos == rec.data_end,
        crate::biff12::sst_step(d.buffer, rec, before)->Ok_0.values
            == match d.shared_strings_step().after.shared_string_value {
            Some(text) => before.values.push(text),
            None => before.values,
        },
{
    crate::biff12::lemma_record_bounds(d.buffer, d.pos);
    let s = Biff { shared_string_value: None, ..d.begin().after };
    if rec.id == 0x13 {
        let length = crate::biff12::le_u32_at(d.buffer, rec.data_start + 1);
        assert(s.dword(1) == Ok::<u32, Seq<char>>(length as u32));
    }
}

/// A number reads the same where the same bytes stand.
proof fn lemma_same_vlq(a: Seq<u8>, b: Seq<u8>, p: int, index: nat, stop: int)
    requires
        0 <= p,
        stop <= a.len(),
        stop <= b.len(),
        forall|j: int| p <= j < stop ==> a[j] == b[j],
        crate::biff12::vlq_at(a, p, index) matches Ok((_, next)) && next <= stop,
    ensures
        crate::biff12::vlq_at(a, p, index) == crate::biff12::vlq_at(b, p, index),
    decreases 5 - index,
{
    crate::biff12::lemma_vlq_at_advances(a, p, index);
    if index < 5 && p < a.len() && a[p] >= 0x80 && !(index == 4 && a[p] % 0x80 > 0x0f) {
        lemma_same_vlq(a, b, p + 1, index + 1, stop);
    }
}

/// A record is the same where the same header stands.
pub proof fn lemma_same_record(a: Seq<u8>, b: Seq<u8>, p: int)
    requires
        0 <= p,
        a.len() <= usize::MAX,
        b.len() <= usize::MAX,
        crate::biff12::record_at(a, p) matches Ok(Some(rec)) && rec.data_end <= b.len() && forall|
            j: int,
        | p <= j < rec.data_start ==> a[j] == b[j],
    ensures
        crate::biff12::record_at(a, p) == crate::biff12::record_at(b, p),
{
    crate::biff12::lemma_record_bounds(a, p);
    let rec = crate::biff12::record_at(a, p)->Ok_0->Some_0;
    crate::biff12::lemma_vlq_at_advances(a, p, 0);
    let (id, p1) = crate::biff12::vlq_at(a, p, 0)->Ok_0;
    crate::biff12::lemma_vlq_at_advances(a, p1, 0);
    lemma_same_vlq(a, b, p, 0, rec.data_start as int);
    lemma_same_vlq(a, b, p1, 0, rec.data_start as int);
}

/// A record leads to the same where the same bytes stand.
proof fn lemma_same_step(a: Seq<u8>, b: Seq<u8>, p: int, table: SharedStrings)
    requires
        0 <= p,
        a.len() <= usize::MAX,
        b.len() <= usize::MAX,
        crate::biff12::record_at(a, p) matches Ok(Some(rec)) && rec.data_end <= b.len() && forall|
            j: int,
        | p <= j < rec.data_end ==> a[j] == b[j],
    ensures
        crate::biff12::record_at(a, p) == crate::biff12::record_at(b, p),
        crate::biff12::sst_step(a, crate::biff12::record_at(a, p)->Ok_0->Some_0, table)
            == crate::biff12::sst_step(b, crate::biff12::record_at(a, p)->Ok_0->Some_0, table),
{
    crate::biff12::lemma_record_bounds(a, p);
    lemma_same_record(a, b, p);
    let rec = crate::biff12::record_at(a, p)->Ok_0->Some_0;
    if rec.id == 0x13 && rec.len >= 5 {
        let at = rec.data_start + 5;
        let cch = crate::biff12::le_u32_at(a, rec.data_start + 1);
        assert(crate::biff12::le_u32_at(b, rec.data_start + 1) == cch);
        if 2 * cch <= rec.len - 5 {
            assert(a.subrange(at, at + 2 * cch) =~= b.subrange(at, at + 2 * cch));
        }
    }
}

/// What a scan finds of texts does not hang on what it knew of counts and ends, and
/// neither on the bytes before it.
proof fn lemma_same_rest(
    a: Seq<u8>,
    b: Seq<u8>,
    p: int,
    s: SharedStrings,
    t: SharedStrings,
)
    requires
        0 <= p <= a.len(),
        a.len() == b.len(),
        a.len() <= usize::MAX,
        forall|j: int| p <= j < a.len() ==> a[j] == b[j],
        s.values == t.values,
        crate::biff12::sst_scan(a, p, s) is Ok,
    ensures
        crate::biff12::sst_scan(b, p, t) matches Ok(after) && after.values
            == crate::biff12::sst_scan(a, p, s)->Ok_0.values,
    decreases a.len() - p,
{
    crate::biff12::lemma_record_bounds(a, p);
    if let Ok(Some(rec)) = crate::biff12::record_at(a, p) {
        lemma_same_step(a, b, p, s);
        lemma_same_rest(
            a,
            b,
            rec.data_end as int,
            crate::biff12::sst_step(a, rec, s)->Ok_0,
            crate::biff12::sst_step(b, rec, t)->Ok_0,
        );
    }
}

/// Records are scanned with others behind them.
proof fn lemma_scanned_before(b: Seq<u8>, c: Seq<u8>, p: int, before: SharedStrings)
    requires
        0 <= p <= b.len(),
        b.len() + c.len() <= usize::MAX,
        crate::biff12::sst_scan(b, p, before) is Ok,
    ensures
        crate::biff12::sst_scan(b + c, p, before) == crate::biff12::sst_scan(
            b + c,
            b.len() as int,
            crate::biff12::sst_scan(b, p, before)->Ok_0,
        ),
    decreases b.len() - p,
{
    crate::biff12::lemma_record_bounds(b, p);
    if let Ok(Some(rec)) = crate::biff12::record_at(b, p) {
        lemma_same_step(b, b + c, p, before);
        lemma_scanned_before(
            b,
            c,
            rec.data_end as int,
            crate::biff12::sst_step(b, rec, before)->Ok_0,
        );
    }
}

/// The text of an item stands in its payload.
proof fn lemma_payload_text(buffer: Seq<u8>, start: int, text: Seq<char>)
    requires
        crate::xlsb_update_read::is_writable(text),
        crate::xlsb_laws::holds(buffer, start, crate::xlsb_patch::string_payload(text)),
    ensures
        ({
            let n = crate::utf16::encode_units(text).len() as int;
            &&& crate::xlsb_patch::string_payload(text).len() == 5 + 2 * n
            &&& crate::biff12::le_u32_at(buffer, start + 1) == n
            &&& crate::utf16::decode_units(
                crate::utf16::le_units(buffer.subrange(start + 5, start + 5 + 2 * n)),
            ) == text
        }),
{
    let units = crate::utf16::encode_units(text);
    let count = crate::big_buffer::le32(crate::xlsb_cells::low32(units.len() as int));
    let bytes = crate::utf16::le_bytes(units);
    assert(crate::xlsb_patch::string_payload(text) =~= seq![0u8] + (count + bytes));
    crate::xlsb_laws::lemma_holds_parts(buffer, start, seq![0u8], count + bytes);
    crate::xlsb_laws::lemma_holds_parts(buffer, start + 1, count, bytes);
    crate::xlsb_laws::lemma_le32(
        buffer,
        start + 1,
        crate::xlsb_cells::low32(units.len() as int),
    );
    crate::utf16::law_le_round_trip(units);
    crate::utf16::law_utf16_round_trip(text);
}

/// A record whose payload holds a text adds it.
proof fn lemma_item_step(
    buffer: Seq<u8>,
    rec: Biff12Record,
    text: Seq<char>,
    n: int,
    before: SharedStrings,
)
    requires
        buffer.len() <= usize::MAX,
        rec.id == 0x13,
        0 <= n,
        rec.len == 5 + 2 * n,
        rec.data_start + 5 + 2 * n <= buffer.len(),
        crate::biff12::le_u32_at(buffer, rec.data_start + 1) == n,
        crate::utf16::decode_units(
            crate::utf16::le_units(
                buffer.subrange(rec.data_start + 5, rec.data_start + 5 + 2 * n),
            ),
        ) == text,
    ensures
        crate::biff12::sst_step(buffer, rec, before) == Ok::<SharedStrings, Seq<char>>(
            SharedStrings { values: before.values.push(text), ..before },
        ),
{
}

/// A new item adds its text.
proof fn lemma_new_item(buffer: Seq<u8>, at: int, text: Seq<char>, before: SharedStrings)
    requires
        buffer.len() <= usize::MAX,
        crate::xlsb_update_read::is_writable(text),
        crate::xlsb_laws::holds(
            buffer,
            at,
            crate::biff12::record(0x13, crate::xlsb_patch::string_payload(text)),
        ),
    ensures
        crate::biff12::record_at(buffer, at) matches Ok(Some(rec)) && rec.id == 0x13
            && rec.data_end == at + crate::biff12::record(
            0x13,
            crate::xlsb_patch::string_payload(text),
        ).len() && crate::biff12::sst_step(buffer, rec, before) == Ok::<SharedStrings, Seq<char>>(
            SharedStrings { values: before.values.push(text), ..before },
        ),
{
    let payload = crate::xlsb_patch::string_payload(text);
    let n = crate::utf16::encode_units(text).len() as int;
    assert(payload.len() == 5 + 2 * n) by {
        crate::utf16::law_le_round_trip(crate::utf16::encode_units(text));
    }
    crate::xlsb_part_laws::lemma_record_holds(buffer, at, 0x13, payload);
    let start = at + crate::xlsb_part_laws::payload_offset(0x13, payload.len());
    lemma_payload_text(buffer, start, text);
    let rec = crate::biff12::record_at(buffer, at)->Ok_0->Some_0;
    lemma_item_step(buffer, rec, text, n, before);
}

/// The texts from an index on fit into records.
pub open spec fn are_writable(texts: Seq<Seq<char>>, from: int) -> bool {
    forall|i: int|
        from <= i < texts.len() ==> crate::xlsb_update_read::is_writable(#[trigger] texts[i])
}

/// New items add their texts, and hold no header.
proof fn lemma_new_items(
    buffer: Seq<u8>,
    base: int,
    texts: Seq<Seq<char>>,
    from: int,
    to: int,
    before: SharedStrings,
    total: u32,
    unique: u32,
)
    requires
        buffer.len() <= usize::MAX,
        are_writable(texts, from),
        0 <= from <= to <= texts.len(),
        crate::xlsb_laws::holds(
            buffer,
            base,
            crate::xlsb_patch::string_items(texts, from, to),
        ),
    ensures
        ({
            let end = base + crate::xlsb_patch::string_items(texts, from, to).len();
            &&& crate::biff12::sst_scan(buffer, base, before) == crate::biff12::sst_scan(
                buffer,
                end,
                SharedStrings { values: before.values + texts.subrange(from, to), ..before },
            )
            &&& crate::xlsb_patch::with_counts(buffer, base, total, unique)
                == crate::xlsb_patch::with_counts(buffer, end, total, unique)
        }),
    decreases to - from,
{
    if from == to {
        assert(before.values + texts.subrange(from, to) =~= before.values);
    } else {
        let fewer = crate::xlsb_patch::string_items(texts, from, to - 1);
        let text = texts[to - 1];
        let here = crate::biff12::record(0x13, crate::xlsb_patch::string_payload(text));
        crate::xlsb_laws::lemma_holds_parts(buffer, base, fewer, here);
        lemma_new_items(buffer, base, texts, from, to - 1, before, total, unique);
        let mid = SharedStrings {
            values: before.values + texts.subrange(from, to - 1),
            ..before
        };
        lemma_new_item(buffer, base + fewer.len(), text, mid);
        assert(mid.values.push(text) =~= before.values + texts.subrange(from, to));
    }
}

/// The ids of records that are neither items of shared strings nor their header.
pub open spec fn no_text() -> spec_fn(u32) -> bool {
    |id: u32| id != 0x13 && id != 0x9f
}

/// Records at the end that are neither items nor headers.
proof fn lemma_scanned_behind(
    a: Seq<u8>,
    b: Seq<u8>,
    p: int,
    before: SharedStrings,
    total: u32,
    unique: u32,
)
    requires
        0 <= p <= b.len(),
        a.len() + b.len() <= usize::MAX,
        crate::xlsb_laws::records_from(b, p, no_text()),
    ensures
        crate::biff12::sst_scan(a + b, a.len() + p, before) matches Ok(after) && after.values
            == before.values,
        crate::xlsb_patch::with_counts(a + b, a.len() + p, total, unique) == Ok::<
            Seq<u8>,
            Seq<char>,
        >(a + b),
    decreases b.len() - p,
{
    crate::biff12::lemma_record_bounds(b, p);
    if p < b.len() {
        let rec = crate::biff12::record_at(b, p)->Ok_0->Some_0;
        assert(no_text()(rec.id));
        assert(a + b + Seq::<u8>::empty() =~= a + b);
        crate::xlsb_laws::lemma_vlq_shift(a, b, Seq::empty(), p, 0);
        crate::biff12::lemma_vlq_at_advances(b, p, 0);
        let (id, p1) = crate::biff12::vlq_at(b, p, 0)->Ok_0;
        crate::xlsb_laws::lemma_vlq_shift(a, b, Seq::empty(), p1, 0);
        crate::biff12::lemma_vlq_at_advances(b, p1, 0);
        let here = crate::biff12::record_at(a + b, a.len() + p)->Ok_0->Some_0;
        assert(here.id == rec.id && here.data_end == a.len() + rec.data_end);
        let next = crate::biff12::sst_step(a + b, here, before)->Ok_0;
        lemma_scanned_behind(a, b, rec.data_end as int, next, total, unique);
    }
}

/// Setting the counts of a header changes its two counts and nothing else.
proof fn lemma_counts_bytes(b: Seq<u8>, at: int, total: u32, unique: u32)
    requires
        0 <= at,
        at + 8 <= b.len(),
    ensures
        ({
            let c = crate::xlsb_patch::with_u32(
                crate::xlsb_patch::with_u32(b, at, total),
                at + 4,
                unique,
            );
            &&& c.len() == b.len()
            &&& forall|j: int| 0 <= j < at || at + 8 <= j < b.len() ==> c[j] == b[j]
        }),
{
}

/// The counts of records with a header among them are set, and their texts stay.
#[verifier::spinoff_prover]
proof fn lemma_counts_set(
    b: Seq<u8>,
    c: Seq<u8>,
    p: int,
    before: SharedStrings,
    total: u32,
    unique: u32,
) -> (after: Seq<u8>)
    requires
        0 <= p <= b.len(),
        b.len() + c.len() <= usize::MAX,
        crate::biff12::sst_scan(b, p, before) is Ok,
        crate::xlsb_patch::with_counts(b + c, b.len() as int, total, unique) == Ok::<
            Seq<u8>,
            Seq<char>,
        >(b + c),
    ensures
        after.len() == b.len(),
        forall|j: int| 0 <= j < p ==> after[j] == b[j],
        crate::xlsb_patch::with_counts(b + c, p, total, unique) == Ok::<Seq<u8>, Seq<char>>(
            after + c,
        ),
        crate::biff12::sst_scan(after, p, before) matches Ok(t) && t.values
            == crate::biff12::sst_scan(b, p, before)->Ok_0.values,
    decreases b.len() - p,
{
    crate::biff12::lemma_record_bounds(b, p);
    match crate::biff12::record_at(b, p) {
        Ok(Some(rec)) => {
            let next = crate::biff12::sst_step(b, rec, before)->Ok_0;
            lemma_same_record(b, b + c, p);
            if rec.id == 0x9f {
                let at = rec.data_start as int;
                let after = crate::xlsb_patch::with_u32(
                    crate::xlsb_patch::with_u32(b, at, total),
                    at + 4,
                    unique,
                );
                lemma_counts_bytes(b, at, total, unique);
                assert(crate::xlsb_patch::with_u32(
                    crate::xlsb_patch::with_u32(b + c, at, total),
                    at + 4,
                    unique,
                ) =~= after + c);
                lemma_same_record(b, after, p);
                lemma_same_rest(
                    b,
                    after,
                    rec.data_end as int,
                    next,
                    crate::biff12::sst_step(after, rec, before)->Ok_0,
                );
                after
            } else {
                let after = lemma_counts_set(b, c, rec.data_end as int, next, total, unique);
                lemma_same_step(b, after, p, before);
                after
            }
        },
        _ => b,
    }
}

/// What is known before the first record of a part.
pub open spec fn nothing_yet() -> SharedStrings {
    SharedStrings { values: Seq::empty(), total: 0, unique: 0, end_sst_offset: 0 }
}

/// The shared strings of a part end at an offset: the records before it hold the
/// texts, and none of those behind it is an item or a header.
pub open spec fn end_at(part: Seq<u8>, end: int, values: Seq<Seq<char>>) -> bool {
    &&& 0 <= end <= part.len() <= usize::MAX
    &&& crate::biff12::sst_scan(part.take(end), 0, nothing_yet()) matches Ok(t) && t.values
        == values
    &&& crate::xlsb_laws::records_from(part.skip(end), 0, no_text())
}

/// The reader finds the texts of a part, in their order.
pub proof fn law_texts_are_read(part: Seq<u8>, end: int, values: Seq<Seq<char>>)
    requires
        end_at(part, end, values),
    ensures
        crate::xlsb_reader::strings_from(
            crate::biff_reader::decoder_at_start(part),
            Seq::empty(),
        ) == (values, Ok::<(), Seq<char>>(())),
{
    let a = part.take(end);
    let b = part.skip(end);
    assert(part =~= a + b);
    lemma_scanned_before(a, b, 0, nothing_yet());
    let mid = crate::biff12::sst_scan(a, 0, nothing_yet())->Ok_0;
    lemma_scanned_behind(a, b, 0, mid, 0, 0);
    let after = crate::biff12::sst_scan(part, 0, nothing_yet())->Ok_0;
    law_reader_and_updater_agree(
        crate::biff_reader::decoder_at_start(part),
        nothing_yet(),
        after,
    );
}

/// Texts, new items behind them, and what stood behind the texts.
proof fn lemma_grown(
    head: Seq<u8>,
    tail: Seq<u8>,
    texts: Seq<Seq<char>>,
    from: int,
    items: Seq<u8>,
)
    requires
        0 <= from <= texts.len(),
        are_writable(texts, from),
        items == crate::xlsb_patch::string_items(texts, from, texts.len() as int),
        head.len() + items.len() + tail.len() <= usize::MAX,
        crate::biff12::sst_scan(head, 0, nothing_yet()) matches Ok(t) && t.values == texts.take(
            from,
        ),
        crate::xlsb_laws::records_from(tail, 0, no_text()),
    ensures
        end_at(head + (items + tail), (head.len() + items.len()) as int, texts),
{
    let n = texts.len() as int;
    let grown = head + (items + tail);
    let both = head + items;
    assert(grown.take((head.len() + items.len()) as int) =~= both);
    assert(grown.skip((head.len() + items.len()) as int) =~= tail);
    lemma_scanned_before(head, items, 0, nothing_yet());
    let found = crate::biff12::sst_scan(head, 0, nothing_yet())->Ok_0;
    assert(both.subrange(head.len() as int, (head.len() + items.len()) as int) =~= items);
    lemma_new_items(both, head.len() as int, texts, from, n, found, 0, 0);
    assert(texts.take(from) + texts.subrange(from, n) =~= texts);
}

/// New items and what stood behind the texts hold no header.
proof fn lemma_no_counts_behind(
    head: Seq<u8>,
    tail: Seq<u8>,
    texts: Seq<Seq<char>>,
    from: int,
    items: Seq<u8>,
    total: u32,
    unique: u32,
)
    requires
        0 <= from <= texts.len(),
        are_writable(texts, from),
        items == crate::xlsb_patch::string_items(texts, from, texts.len() as int),
        head.len() + items.len() + tail.len() <= usize::MAX,
        crate::xlsb_laws::records_from(tail, 0, no_text()),
    ensures
        crate::xlsb_patch::with_counts(
            head + (items + tail),
            head.len() as int,
            total,
            unique,
        ) == Ok::<Seq<u8>, Seq<char>>(head + (items + tail)),
{
    let n = texts.len() as int;
    let all = head + (items + tail);
    assert(all.subrange(head.len() as int, (head.len() + items.len()) as int) =~= items);
    lemma_new_items(all, head.len() as int, texts, from, n, nothing_yet(), total, unique);
    assert(all =~= (head + items) + tail);
    lemma_scanned_behind(head + items, tail, 0, nothing_yet(), total, unique);
}

/// New items put where the shared strings of a part end add their texts behind
/// those that were there, whatever the counts are set to.
pub proof fn law_new_texts_are_added(
    part: Seq<u8>,
    end: int,
    texts: Seq<Seq<char>>,
    from: int,
    total: u32,
    unique: u32,
)
    requires
        0 <= from <= texts.len(),
        end_at(part, end, texts.take(from)),
        are_writable(texts, from),
        part.len() + crate::xlsb_patch::string_items(texts, from, texts.len() as int).len()
            <= usize::MAX,
    ensures
        ({
            let items = crate::xlsb_patch::string_items(texts, from, texts.len() as int);
            crate::xlsb_patch::with_counts(
                crate::xlsb_patch::spliced_bytes(part, end, end, items),
                0,
                total,
                unique,
            ) matches Ok(grown) && end_at(grown, end + items.len(), texts)
        }),
{
    let items = crate::xlsb_patch::string_items(texts, from, texts.len() as int);
    let a = part.take(end);
    let b = part.skip(end);
    assert(crate::xlsb_patch::spliced_bytes(part, end, end, items) =~= a + (items + b));
    lemma_no_counts_behind(a, b, texts, from, items, total, unique);
    let counted = lemma_counts_set(a, items + b, 0, nothing_yet(), total, unique);
    lemma_grown(counted, b, texts, from, items);
}

/// The end that a scan finds is the start of a record.
proof fn lemma_scanned_to_end(buf: Seq<u8>, p: int, before: SharedStrings, t: SharedStrings)
    requires
        0 <= p <= buf.len() <= usize::MAX,
        crate::biff12::sst_scan(buf, p, before) == Ok::<SharedStrings, Seq<char>>(t),
    ensures
        t.end_sst_offset == before.end_sst_offset || {
            &&& p <= t.end_sst_offset <= buf.len()
            &&& crate::biff12::sst_scan(buf.take(t.end_sst_offset), p, before) matches Ok(mid)
                && crate::biff12::sst_scan(buf, t.end_sst_offset, mid) == Ok::<
                SharedStrings,
                Seq<char>,
            >(t)
        },
    decreases buf.len() - p,
{
    crate::biff12::lemma_record_bounds(buf, p);
    if let Ok(Some(rec)) = crate::biff12::record_at(buf, p) {
        let next = crate::biff12::sst_step(buf, rec, before)->Ok_0;
        let end = t.end_sst_offset;
        lemma_scanned_to_end(buf, rec.data_end as int, next, t);
        if end != next.end_sst_offset {
            lemma_same_step(buf, buf.take(end), p, before);
        } else if rec.id == 0xa0 {
            assert(crate::biff12::record_at(buf.take(end), p) == Ok::<
                Option<Biff12Record>,
                Seq<char>,
            >(None));
        }
    }
}

/// The table that is parsed from a part holds its texts and where they end, unless
/// items or headers stand behind its last end mark.
pub proof fn law_parsed_texts_end(part: Seq<u8>, t: SharedStrings)
    requires
        part.len() <= usize::MAX,
        crate::biff12::shared_strings_of(part) == Ok::<SharedStrings, Seq<char>>(t),
        crate::xlsb_laws::records_from(part.skip(t.end_sst_offset), 0, no_text()),
    ensures
        end_at(part, t.end_sst_offset, t.values),
{
    let end = t.end_sst_offset;
    let start = SharedStrings { end_sst_offset: part.len() as int, ..nothing_yet() };
    lemma_scanned_to_end(part, 0, start, t);
    if end == part.len() {
        assert(part.take(end) =~= part);
        assert(part.skip(end) =~= Seq::<u8>::empty());
        lemma_same_rest(part, part, 0, start, nothing_yet());
    } else {
        let a = part.take(end);
        let b = part.skip(end);
        let mid = crate::biff12::sst_scan(a, 0, start)->Ok_0;
        assert(part =~= a + b);
        lemma_scanned_behind(a, b, 0, mid, 0, 0);
        lemma_same_rest(a, a, 0, start, nothing_yet());
    }
}

/// The shared strings of an updated workbook can be written: they have a part, the
/// texts that it holds end where new ones go, and no new one is too long.
pub open spec fn can_grow(strings: BinStrings) -> bool {
    let held = strings.values.len() - strings.added;
    &&& strings.part matches Some(part) && end_at(part, strings.end, strings.values.take(held))
    &&& 0 <= strings.added <= strings.values.len()
    &&& are_writable(strings.values, held)
}

/// Shared strings that have been read from a part can be written, unless items or
/// headers stand behind the last end mark of the part.
pub proof fn law_read_strings_can_grow(part: Seq<u8>, strings: BinStrings)
    requires
        part.len() <= usize::MAX,
        crate::xlsb_package::strings_in(part) == Ok::<BinStrings, crate::xlsx_package::Fault>(
            strings,
        ),
        crate::xlsb_laws::records_from(part.skip(strings.end), 0, no_text()),
    ensures
        can_grow(strings),
{
    law_parsed_texts_end(part, crate::biff12::shared_strings_of(part)->Ok_0);
    assert(strings.values.take(strings.values.len() as int) =~= strings.values);
}

/// Shared strings that can be written still can once cells that pointed at them are
/// gone, and once a cell with a text has come that is not too long.
pub proof fn law_used_strings_can_grow(strings: BinStrings, refs: int, text: Seq<char>)
    requires
        can_grow(strings),
        crate::xlsb_update_read::is_writable(text),
    ensures
        can_grow(strings.released(refs)),
        can_grow(strings.with_use(text)),
{
    let held = strings.values.len() - strings.added;
    let more = strings.with_use(text);
    assert(more.values.take(held) =~= strings.values.take(held));
}

/// Once the shared strings of an update have been written, the reader finds all of
/// them in their part, and more can be written. That fails only where the part
/// would not fit into memory.
pub proof fn law_shared_strings_are_kept(book: XlsbPackage)
    requires
        can_grow(book.strings),
        book.strings.dirty,
    ensures
        ({
            let strings = book.strings;
            let n = strings.values.len() as int;
            let items = crate::xlsb_patch::string_items(strings.values, n - strings.added, n);
            let done = book.committed();
            &&& done.fault is None <==> strings.part->0.len() + items.len() <= usize::MAX
            &&& done.fault is None ==> {
                &&& can_grow(done.book.strings)
                &&& done.book.strings.values == strings.values
                &&& crate::xlsb_reader::strings_from(
                    crate::biff_reader::decoder_at_start(done.book.strings.part->0),
                    Seq::empty(),
                ) == (strings.values, Ok::<(), Seq<char>>(()))
            }
        }),
{
    let strings = book.strings;
    let n = strings.values.len() as int;
    let part = strings.part->0;
    let items = crate::xlsb_patch::string_items(strings.values, n - strings.added, n);
    if part.len() + items.len() <= usize::MAX {
        law_new_texts_are_added(
            part,
            strings.end,
            strings.values,
            n - strings.added,
            strings.total,
            strings.unique,
        );
        let grown = book.committed().book.strings.part->0;
        assert(strings.values.take(n) =~= strings.values);
        law_texts_are_read(grown, strings.end + items.len(), strings.values);
    }
}

} // verus!
