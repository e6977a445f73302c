//! What the XLSB reader makes of the style parts that the XLSB writer makes.

use vstd::prelude::*;
use crate::biff_reader::{Biff, Step};
use crate::formats::Plain;
use crate::number::Number;
use crate::xlsb_parts::{unit_count, utf16_bytes};
use crate::xlsb_reader::BookInfo;

verus! {

/// The ids of records that neither open nor close the number formats or the cell
/// styles.
pub open spec fn no_mark() -> spec_fn(u32) -> bool {
    |id: u32| id < 0x267 || id > 0x26a
}

/// The decoder has moved over some bytes, and the rest leads to the same styles.
pub open spec fn has_moved(d: Biff, after: Biff, len: nat) -> bool {
    &&& after.wf()
    &&& after.buffer == d.buffer
    &&& after.pos == d.pos + len
    &&& crate::xlsb_reader::styles_from(d) == crate::xlsb_reader::styles_from(after)
}

/// The decoder has found nothing new and stands in the same section.
pub open spec fn finds_nothing(d: Biff, after: Biff) -> bool {
    &&& after.in_cell_xf == d.in_cell_xf
    &&& after.in_number_format == d.in_number_format
    &&& after.xf_index_to_num_fmt_id == d.xf_index_to_num_fmt_id
    &&& after.custom_num_fmts == d.custom_num_fmts
}

/// Records outside the two sections say nothing of cell styles.
proof fn lemma_outside(d: Biff, a: Seq<u8>, b: Seq<u8>, c: Seq<u8>) -> (after: Biff)
    requires
        d.wf(),
        d.buffer == a + b + c,
        a.len() <= d.pos <= a.len() + b.len(),
        b.len() <= usize::MAX,
        crate::xlsb_laws::records_from(b, d.pos - a.len(), no_mark()),
        !d.in_cell_xf,
        !d.in_number_format,
    ensures
        has_moved(d, after, (a.len() + b.len() - d.pos) as nat),
        finds_nothing(d, after),
    decreases d.buffer.len() - d.pos,
{
    let p = d.pos - a.len();
    if p == b.len() {
        d
    } else {
        crate::xlsb_laws::lemma_begin_within(d, a, b, c, p);
        let next = d.styles_step().after;
        assert(d.styles_step().result == Ok::<bool, Seq<char>>(true));
        assert(finds_nothing(d, next));
        lemma_outside(next, a, b, c)
    }
}

/// A record that opens or closes a section.
proof fn lemma_mark(d: Biff, id: u32, payload: Seq<u8>) -> (after: Biff)
    requires
        d.wf(),
        0x267 <= id <= 0x26a,
        payload.len() <= u32::MAX,
        crate::xlsb_laws::holds(d.buffer, d.pos, crate::biff12::record(id as nat, payload)),
    ensures
        has_moved(d, after, crate::biff12::record(id as nat, payload).len()),
        after.in_cell_xf == if id == 0x269 {
            true
        } else if id == 0x26a {
            false
        } else {
            d.in_cell_xf
        },
        after.in_number_format == if id == 0x267 {
            true
        } else if id == 0x268 {
            false
        } else {
            d.in_number_format
        },
        after.xf_index_to_num_fmt_id == d.xf_index_to_num_fmt_id,
        after.custom_num_fmts == d.custom_num_fmts,
{
    crate::xlsb_part_laws::lemma_begin_record(d, id, payload);
    d.styles_step().after
}

/// A 16-bit field stands in a record.
proof fn lemma_word_field(d: Biff, offset: int, n: u16)
    requires
        d.wf(),
        offset >= 0,
        d.record_start + offset + 2 <= d.record_end,
        crate::xlsb_laws::holds(d.buffer, d.record_start + offset, crate::xlsb_parts::le16(n)),
    ensures
        d.word(offset) == Ok::<u16, Seq<char>>(n),
{
    let bytes = crate::xlsb_parts::le16(n);
    crate::xlsb_laws::lemma_holds_byte(d.buffer, d.record_start + offset, bytes, 0);
    crate::xlsb_laws::lemma_holds_byte(d.buffer, d.record_start + offset, bytes, 1);
}

/// The payload of a number format record.
pub open spec fn format_payload(id: u16, format: Seq<char>) -> Seq<u8> {
    crate::xlsb_parts::le16(id) + crate::big_buffer::le32(
        crate::xlsb_cells::low32(unit_count(format) as int),
    ) + utf16_bytes(format)
}

/// The date formats with one more number format looked at.
pub open spec fn with_format(found: Set<u16>, id: u16, format: Seq<char>) -> Set<u16> {
    if crate::formats::is_date_code(format) {
        found.insert(id)
    } else {
        found
    }
}

/// A number format is looked at.
#[verifier::spinoff_prover]
proof fn lemma_format(d: Biff, id: u16, format: Seq<char>) -> (after: Biff)
    requires
        d.wf(),
        d.in_number_format,
        6 + 2 * unit_count(format) <= u32::MAX,
        crate::xlsb_laws::holds(d.buffer, d.pos, crate::xlsb_parts::format_record(id, format)),
    ensures
        has_moved(d, after, crate::xlsb_parts::format_record(id, format).len()),
        after.in_cell_xf == d.in_cell_xf,
        after.in_number_format,
        after.xf_index_to_num_fmt_id == d.xf_index_to_num_fmt_id,
        after.custom_num_fmts == with_format(d.custom_num_fmts, id, format),
{
    let payload = format_payload(id, format);
    let word = crate::xlsb_parts::le16(id);
    let count = crate::big_buffer::le32(crate::xlsb_cells::low32(unit_count(format) as int));
    let text = utf16_bytes(format);
    assert(text.len() == 2 * unit_count(format));
    crate::xlsb_part_laws::lemma_begin_record(d, 0x2c, payload);
    let b = d.begin().after;
    assert(payload =~= word + (count + text));
    crate::xlsb_laws::lemma_holds_parts(d.buffer, b.record_start, word, count + text);
    crate::xlsb_laws::lemma_holds_parts(d.buffer, b.record_start + 2, count, text);
    lemma_word_field(b, 0, id);
    crate::xlsb_part_laws::lemma_text_field(b, 2, format);
    d.styles_step().after
}

/// A cell style is looked at.
#[verifier::spinoff_prover]
proof fn lemma_style(d: Biff, font: u16, format: u16, flags: u16, marked: u8) -> (after: Biff)
    requires
        d.wf(),
        d.in_cell_xf,
        crate::xlsb_laws::holds(
            d.buffer,
            d.pos,
            crate::xlsb_parts::style_record(font, format, flags, marked),
        ),
    ensures
        has_moved(d, after, crate::xlsb_parts::style_record(font, format, flags, marked).len()),
        after.in_cell_xf,
        after.in_number_format == d.in_number_format,
        after.xf_index_to_num_fmt_id == d.xf_index_to_num_fmt_id.push(format),
        after.custom_num_fmts == d.custom_num_fmts,
{
    let record = crate::xlsb_parts::style_record(font, format, flags, marked);
    let payload = record.skip(2);
    let tail = payload.skip(4);
    let first = crate::xlsb_parts::le16(font);
    let second = crate::xlsb_parts::le16(format);
    assert(crate::biff12::vlq(0x2f) =~= seq![0x2fu8]);
    assert(crate::biff12::vlq(16) =~= seq![16u8]);
    assert(record =~= crate::biff12::record(0x2f, payload));
    crate::xlsb_part_laws::lemma_begin_record(d, 0x2f, payload);
    let b = d.begin().after;
    assert(payload =~= first + (second + tail));
    crate::xlsb_laws::lemma_holds_parts(d.buffer, b.record_start, first, second + tail);
    crate::xlsb_laws::lemma_holds_parts(d.buffer, b.record_start + 2, second, tail);
    lemma_word_field(b, 2, format);
    d.styles_step().after
}

/// The date formats with the first `n` number formats of the workbook looked at.
pub open spec fn with_formats(found: Set<u16>, formats: Seq<Seq<char>>, n: nat) -> Set<u16>
    decreases n,
{
    if n == 0 {
        found
    } else {
        with_format(
            with_formats(found, formats, (n - 1) as nat),
            (166 + n) as u16,
            formats[n - 1],
        )
    }
}

/// No number format is too long for a record.
pub open spec fn are_short(formats: Seq<Seq<char>>) -> bool {
    forall|i: int| 0 <= i < formats.len() ==> 6 + 2 * unit_count(#[trigger] formats[i]) <= u32::MAX
}

/// The number formats of the workbook are looked at.
proof fn lemma_formats(d: Biff, formats: Seq<Seq<char>>, n: nat, rest: Seq<u8>) -> (after: Biff)
    requires
        d.wf(),
        d.in_number_format,
        n <= formats.len(),
        are_short(formats),
        crate::xlsb_laws::holds(
            d.buffer,
            d.pos,
            crate::xlsb_parts::format_records(formats, n) + rest,
        ),
    ensures
        has_moved(d, after, crate::xlsb_parts::format_records(formats, n).len()),
        crate::xlsb_laws::holds(d.buffer, after.pos, rest),
        after.in_cell_xf == d.in_cell_xf,
        after.in_number_format,
        after.xf_index_to_num_fmt_id == d.xf_index_to_num_fmt_id,
        after.custom_num_fmts == with_formats(d.custom_num_fmts, formats, n),
    decreases n,
{
    let all = crate::xlsb_parts::format_records(formats, n);
    crate::xlsb_laws::lemma_holds_parts(d.buffer, d.pos, all, rest);
    if n == 0 {
        d
    } else {
        let fewer = crate::xlsb_parts::format_records(formats, (n - 1) as nat);
        let here = crate::xlsb_parts::format_record((166 + n) as u16, formats[n - 1]);
        assert(all + rest =~= fewer + (here + rest));
        let mid = lemma_formats(d, formats, (n - 1) as nat, here + rest);
        crate::xlsb_laws::lemma_holds_parts(d.buffer, mid.pos, here, rest);
        lemma_format(mid, (166 + n) as u16, formats[n - 1])
    }
}

/// Number format ids with those of the first `n` number formats of a workbook
/// behind them.
pub open spec fn with_ids(ids: Seq<u16>, n: nat) -> Seq<u16>
    decreases n,
{
    if n == 0 {
        ids
    } else {
        with_ids(ids, (n - 1) as nat).push((166 + n) as u16)
    }
}

/// The cell styles of the number formats of the workbook are looked at.
proof fn lemma_styles(d: Biff, n: nat, rest: Seq<u8>) -> (after: Biff)
    requires
        d.wf(),
        d.in_cell_xf,
        crate::xlsb_laws::holds(d.buffer, d.pos, crate::xlsb_parts::style_records(n) + rest),
    ensures
        has_moved(d, after, crate::xlsb_parts::style_records(n).len()),
        crate::xlsb_laws::holds(d.buffer, after.pos, rest),
        after.in_cell_xf,
        after.in_number_format == d.in_number_format,
        after.xf_index_to_num_fmt_id == with_ids(d.xf_index_to_num_fmt_id, n),
        after.custom_num_fmts == d.custom_num_fmts,
    decreases n,
{
    let all = crate::xlsb_parts::style_records(n);
    crate::xlsb_laws::lemma_holds_parts(d.buffer, d.pos, all, rest);
    if n == 0 {
        d
    } else {
        let fewer = crate::xlsb_parts::style_records((n - 1) as nat);
        let here = crate::xlsb_parts::style_record(0, (166 + n) as u16, 1, 0);
        assert(all + rest =~= fewer + (here + rest));
        let mid = lemma_styles(d, (n - 1) as nat, here + rest);
        crate::xlsb_laws::lemma_holds_parts(d.buffer, mid.pos, here, rest);
        lemma_style(mid, 0, (166 + n) as u16, 1, 0)
    }
}

/// The number formats that show dates in a workbook with number formats of its own:
/// the two that every workbook has, and those of its own that do.
pub open spec fn date_ids(formats: Seq<Seq<char>>) -> Set<u16> {
    with_formats(Set::empty().insert(164u16).insert(166u16), formats, formats.len())
}

/// The number formats of the cell styles of a workbook with `n` number formats of
/// its own.
pub open spec fn style_formats(n: nat) -> Seq<u16> {
    with_ids(Seq::empty().push(0u16).push(164).push(166).push(0), n)
}

proof fn lemma_lowered_start(s: Seq<char>)
    requires
        s.len() > 0,
        (s[0] as u32) < 128,
    ensures
        crate::text::lowered(s).len() > 0,
        crate::text::lowered(s)[0] == crate::text::ascii_lower(s[0]),
    decreases s.len(),
{
    if s.len() == 1 {
        assert(s.drop_last() =~= Seq::<char>::empty());
        assert(crate::text::lowered(s.drop_last()) =~= Seq::<char>::empty());
        assert(crate::text::lowered_char(s.last())[0] == crate::text::ascii_lower(s[0]));
    } else {
        lemma_lowered_start(s.drop_last());
    }
}

/// A character takes at most two code units.
proof fn lemma_unit_count_bound(text: Seq<char>)
    ensures
        unit_count(text) <= 2 * text.len(),
    decreases text.len(),
{
    if text.len() > 0 {
        lemma_unit_count_bound(text.drop_last());
    }
}

/// A number format that starts with the letter of years shows dates.
proof fn lemma_years_show_dates(code: Seq<char>)
    requires
        code.len() > 0,
        code[0] == 'y',
    ensures
        crate::formats::is_date_code(code),
{
    lemma_lowered_start(code);
}

/// The section of the number formats is read.
#[verifier::spinoff_prover]
proof fn lemma_format_section(d: Biff, formats: Seq<Seq<char>>) -> (after: Biff)
    requires
        d.wf(),
        are_short(formats),
        d.custom_num_fmts == Set::<u16>::empty(),
        crate::xlsb_laws::holds(d.buffer, d.pos, crate::xlsb_parts::format_section(formats)),
    ensures
        has_moved(d, after, crate::xlsb_parts::format_section(formats).len()),
        after.in_cell_xf == d.in_cell_xf,
        !after.in_number_format,
        after.xf_index_to_num_fmt_id == d.xf_index_to_num_fmt_id,
        after.custom_num_fmts == date_ids(formats),
{
    reveal(crate::xlsb_parts::format_section);
    reveal_strlit("yyyy\\-mm\\-dd\\ hh:mm");
    reveal_strlit("yyyy\\-mm\\-dd");
    let time = "yyyy\\-mm\\-dd\\ hh:mm"@;
    let day = "yyyy\\-mm\\-dd"@;
    lemma_years_show_dates(time);
    lemma_years_show_dates(day);
    lemma_unit_count_bound(time);
    lemma_unit_count_bound(day);
    let count = crate::xlsb_parts::le16((2 + formats.len()) as u16) + seq![0u8, 0u8];
    let opening = crate::biff12::record(0x267, count);
    let first = crate::xlsb_parts::format_record(164, time);
    let second = crate::xlsb_parts::format_record(166, day);
    let own = crate::xlsb_parts::format_records(formats, formats.len());
    let end = crate::biff12::record(0x268, Seq::empty());
    assert(crate::xlsb_parts::format_section(formats) =~= opening + (first + (second + (own
        + end))));
    crate::xlsb_laws::lemma_holds_parts(d.buffer, d.pos, opening, first + (second + (own + end)));
    let d1 = lemma_mark(d, 0x267, count);
    crate::xlsb_laws::lemma_holds_parts(d.buffer, d1.pos, first, second + (own + end));
    let d2 = lemma_format(d1, 164, time);
    crate::xlsb_laws::lemma_holds_parts(d.buffer, d2.pos, second, own + end);
    let d3 = lemma_format(d2, 166, day);
    let d4 = lemma_formats(d3, formats, formats.len(), end);
    lemma_mark(d4, 0x268, Seq::empty())
}

/// The section of the cell styles is read.
#[verifier::spinoff_prover]
proof fn lemma_style_section(d: Biff, n: nat) -> (after: Biff)
    requires
        d.wf(),
        d.xf_index_to_num_fmt_id == Seq::<u16>::empty(),
        crate::xlsb_laws::holds(d.buffer, d.pos, crate::xlsb_parts::style_section(n)),
    ensures
        has_moved(d, after, crate::xlsb_parts::style_section(n).len()),
        !after.in_cell_xf,
        after.in_number_format == d.in_number_format,
        after.xf_index_to_num_fmt_id == style_formats(n),
        after.custom_num_fmts == d.custom_num_fmts,
{
    reveal(crate::xlsb_parts::style_section);
    let count = crate::xlsb_parts::le16((4 + n) as u16) + seq![0u8, 0u8];
    let opening = crate::biff12::record(0x269, count);
    let s0 = crate::xlsb_parts::style_record(0, 0, 0, 0);
    let s1 = crate::xlsb_parts::style_record(0, 164, 1, 0);
    let s2 = crate::xlsb_parts::style_record(0, 166, 1, 0);
    let s3 = crate::xlsb_parts::style_record(1, 0, 0, 1);
    let own = crate::xlsb_parts::style_records(n);
    let end = crate::biff12::record(0x26a, Seq::empty());
    let rest3 = own + end;
    let rest2 = s3 + rest3;
    let rest1 = s2 + rest2;
    let rest0 = s1 + rest1;
    assert(crate::xlsb_parts::style_section(n) =~= opening + (s0 + rest0));
    crate::xlsb_laws::lemma_holds_parts(d.buffer, d.pos, opening, s0 + rest0);
    let d1 = lemma_mark(d, 0x269, count);
    crate::xlsb_laws::lemma_holds_parts(d.buffer, d1.pos, s0, rest0);
    let d2 = lemma_style(d1, 0, 0, 0, 0);
    crate::xlsb_laws::lemma_holds_parts(d.buffer, d2.pos, s1, rest1);
    let d3 = lemma_style(d2, 0, 164, 1, 0);
    crate::xlsb_laws::lemma_holds_parts(d.buffer, d3.pos, s2, rest2);
    let d4 = lemma_style(d3, 0, 166, 1, 0);
    crate::xlsb_laws::lemma_holds_parts(d.buffer, d4.pos, s3, rest3);
    let d5 = lemma_style(d4, 1, 0, 0, 1);
    let d6 = lemma_styles(d5, n, end);
    lemma_mark(d6, 0x26a, Seq::empty())
}

/// Bytes with two sections between other records, as a reader goes through them.
#[verifier::spinoff_prover]
proof fn lemma_parts_read(
    head: Seq<u8>,
    formats: Seq<Seq<char>>,
    middle: Seq<u8>,
    tail: Seq<u8>,
    buffer: Seq<u8>,
) -> (d: Biff)
    requires
        are_short(formats),
        buffer.len() <= usize::MAX,
        buffer == head + crate::xlsb_parts::format_section(formats) + middle
            + crate::xlsb_parts::style_section(formats.len()) + tail,
        crate::xlsb_laws::records_from(head, 0, no_mark()),
        crate::xlsb_laws::records_from(middle, 0, no_mark()),
        crate::xlsb_laws::records_from(tail, 0, no_mark()),
    ensures
        crate::xlsb_reader::styles_from(crate::biff_reader::decoder_at_start(buffer)) == Ok::<
            Biff,
            Seq<char>,
        >(d),
        d.xf_index_to_num_fmt_id == style_formats(formats.len()),
        d.custom_num_fmts == date_ids(formats),
{
    let f = crate::xlsb_parts::format_section(formats);
    let s = crate::xlsb_parts::style_section(formats.len());
    let d0 = crate::biff_reader::decoder_at_start(buffer);
    assert(buffer =~= Seq::<u8>::empty() + head + (f + middle + s + tail));
    let d1 = lemma_outside(d0, Seq::empty(), head, f + middle + s + tail);
    assert(buffer.subrange(d1.pos, d1.pos + f.len()) =~= f);
    let d2 = lemma_format_section(d1, formats);
    assert(buffer =~= (head + f) + middle + (s + tail));
    let d3 = lemma_outside(d2, head + f, middle, s + tail);
    assert(buffer.subrange(d3.pos, d3.pos + s.len()) =~= s);
    let d4 = lemma_style_section(d3, formats.len());
    assert(buffer =~= (head + f + middle + s) + tail + Seq::<u8>::empty());
    let d5 = lemma_outside(d4, head + f + middle + s, tail, Seq::empty());
    assert(d5.pos == buffer.len());
    assert(d5.styles_step() == (Step::<bool> { after: d5, result: Ok(false) }));
    d5
}

/// The style part of a workbook with number formats of its own says of every cell
/// style which number format it has, and of the number formats which of them show
/// dates. The parts of the template around the two sections have to be whole
/// records, none of them the mark of a section, and no number format may be too
/// long for a record.
pub proof fn law_styles_read_back(base: Seq<u8>, formats: Seq<Seq<char>>)
    requires
        formats.len() > 0,
        are_short(formats),
        crate::xlsb_parts::styles_bin(base, formats).len() <= usize::MAX,
        ({
            let layout = crate::xlsb_templates::style_layout(base);
            &&& crate::xlsb_laws::records_from(base.take(3), 0, no_mark())
            &&& crate::xlsb_laws::records_from(
                base.subrange(layout.fill_begin, layout.xf_begin),
                0,
                no_mark(),
            )
            &&& crate::xlsb_laws::records_from(base.skip(layout.xf_end + 3), 0, no_mark())
        }),
    ensures
        crate::xlsb_reader::styles_from(
            crate::biff_reader::decoder_at_start(crate::xlsb_parts::styles_bin(base, formats)),
        ) matches Ok(d) && d.xf_index_to_num_fmt_id == style_formats(formats.len())
            && d.custom_num_fmts == date_ids(formats),
{
    let layout = crate::xlsb_templates::style_layout(base);
    let d = lemma_parts_read(
        base.take(3),
        formats,
        base.subrange(layout.fill_begin, layout.xf_begin),
        base.skip(layout.xf_end + 3),
        crate::xlsb_parts::styles_bin(base, formats),
    );
}

proof fn lemma_ids(ids: Seq<u16>, n: nat, i: int)
    requires
        0 <= i < ids.len() + n,
    ensures
        with_ids(ids, n).len() == ids.len() + n,
        with_ids(ids, n)[i] == if i < ids.len() {
            ids[i]
        } else {
            (167 + i - ids.len()) as u16
        },
    decreases n,
{
    if n > 0 {
        if i < ids.len() + n - 1 {
            lemma_ids(ids, (n - 1) as nat, i);
        } else if n > 1 || ids.len() > 0 {
            lemma_ids(ids, (n - 1) as nat, 0);
        } else {
            assert(with_ids(ids, 0) == ids);
        }
    }
}

proof fn lemma_own_dates(found: Set<u16>, formats: Seq<Seq<char>>, n: nat, id: u16)
    requires
        n <= formats.len(),
        166 + formats.len() <= 0xffff,
    ensures
        with_formats(found, formats, n).contains(id) <==> (found.contains(id) || (167 <= id < 167
            + n && crate::formats::is_date_code(formats[id - 167]))),
    decreases n,
{
    if n > 0 {
        lemma_own_dates(found, formats, (n - 1) as nat, id);
    }
}

/// Where the reader has the styles of the writer, a date and time that was written
/// without a number format reads back as one, a date too, a value that was written
/// with a number format reads back as a date exactly if the format shows dates, and
/// a number that was written without one reads back as a number.
pub proof fn law_dates_read_back_as_dates(
    formats: Seq<Seq<char>>,
    info: BookInfo,
    bits: u64,
    i: int,
)
    requires
        formats.len() <= 252,
        info.formats == style_formats(formats.len()),
        info.date_formats == date_ids(formats),
    ensures
        crate::xlsb_laws::number_back(info, bits, 1) == Plain::DateTime(Number::Double(bits)),
        crate::xlsb_laws::number_back(info, bits, 2) == Plain::DateTime(Number::Double(bits)),
        0 <= i < formats.len() ==> crate::xlsb_laws::number_back(info, bits, (4 + i) as u8)
            == if crate::formats::is_date_code(formats[i]) {
            Plain::DateTime(Number::Double(bits))
        } else {
            Plain::Number(Number::Double(bits))
        },
        crate::xlsb_laws::number_back(info, bits, 0) == Plain::Number(Number::Double(bits)),
{
    let n = formats.len();
    let ids = Seq::empty().push(0u16).push(164).push(166).push(0);
    let found = Set::empty().insert(164u16).insert(166u16);
    lemma_ids(ids, n, 0);
    lemma_ids(ids, n, 1);
    lemma_ids(ids, n, 2);
    lemma_own_dates(found, formats, n, 0);
    lemma_own_dates(found, formats, n, 164);
    lemma_own_dates(found, formats, n, 166);
    if 0 <= i < n {
        lemma_ids(ids, n, 4 + i);
        lemma_own_dates(found, formats, n, (167 + i) as u16);
    }
}

} // verus!
