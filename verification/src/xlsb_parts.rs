//! The parts of an XLSB archive beside the worksheets.

use vstd::prelude::*;
use crate::biff12::{append_bytes, build_record};
use crate::big_buffer::push_u32_le;
use crate::string_table::StringTable;
use crate::text::{chars_of, push_decimal};
use crate::utf16::utf16_units;
use crate::xlsb_cells::to_low32;
use crate::xlsb_templates::{locate_styles, XlsbTemplates};

verus! {

/// The two bytes of a number, low byte first.
pub open spec fn le16(n: u16) -> Seq<u8> {
    seq![(n % 256) as u8, (n / 256) as u8]
}

fn push_u16_le(out: &mut Vec<u8>, n: u16)
    ensures
        final(out)@ == old(out)@ + le16(n),
{
    let ghost before = out@;
    out.push((n % 256) as u8);
    out.push((n / 256) as u8);
    assert(out@ =~= before + le16(n));
}

/// A text as UTF-16 bytes, low byte first.
pub open spec fn utf16_bytes(text: Seq<char>) -> Seq<u8> {
    crate::utf16::le_bytes(crate::utf16::encode_units(text))
}

/// The number of UTF-16 code units of a text.
pub open spec fn unit_count(text: Seq<char>) -> nat {
    crate::utf16::encode_units(text).len()
}

fn push_units(out: &mut Vec<u8>, units: &Vec<u16>)
    ensures
        final(out)@ == old(out)@ + crate::utf16::le_bytes(units@),
{
    let ghost before = out@;
    let mut i: usize = 0;
    assert(before + crate::utf16::le_bytes(units@.take(0)) =~= before);
    while i < units.len()
        invariant
            i <= units.len(),
            out@ == before + crate::utf16::le_bytes(units@.take(i as int)),
        decreases units.len() - i,
    {
        out.push((units[i] % 256) as u8);
        out.push((units[i] / 256) as u8);
        assert(out@ =~= before + crate::utf16::le_bytes(units@.take(i as int + 1)));
        i += 1;
    }
    assert(units@.take(units@.len() as int) =~= units@);
}

/// The length field of a shared-string item with `len` bytes of payload, and the
/// flag byte that the payload starts with.
pub open spec fn item_length(len: int) -> Seq<u8> {
    if len >= 128 {
        seq![
            (128 + len % 128) as u8,
            if len / 128 >= 256 {
                (128 + len / 128 % 128) as u8
            } else {
                (len / 128) as u8
            },
            (len / 0x4000 % 256) as u8,
        ] + (if len / 0x4000 > 0 {
            seq![0u8]
        } else {
            Seq::empty()
        })
    } else {
        seq![len as u8, 0u8]
    }
}

/// One item of the shared-string table.
pub open spec fn sst_item(text: Seq<char>) -> Seq<u8> {
    seq![19u8] + item_length(5 + 2 * unit_count(text) as int) + crate::big_buffer::le32(
        crate::xlsb_cells::low32(unit_count(text) as int),
    ) + utf16_bytes(text)
}

/// The first `n` items of the shared-string table.
pub open spec fn sst_items(strings: Seq<Seq<char>>, n: nat) -> Seq<u8>
    decreases n,
{
    if n == 0 {
        Seq::empty()
    } else {
        sst_items(strings, (n - 1) as nat) + sst_item(strings[n - 1])
    }
}

/// The shared-string table: the number of its texts, how often they are used, and
/// the texts.
pub open spec fn shared_strings_bin(strings: Seq<Seq<char>>, uses: int) -> Seq<u8> {
    seq![159u8, 1u8, 8u8] + crate::big_buffer::le32(crate::xlsb_cells::low32(strings.len() as int))
        + crate::big_buffer::le32(crate::xlsb_cells::low32(uses)) + sst_items(strings, strings.len())
        + seq![160u8, 1u8, 0u8]
}

fn push_item_length(out: &mut Vec<u8>, len: u128)
    ensures
        final(out)@ == old(out)@ + item_length(len as int),
{
    let ghost before = out@;
    if len >= 128 {
        out.push((128 + len % 128) as u8);
        if len / 128 >= 256 {
            out.push((128 + len / 128 % 128) as u8);
        } else {
            out.push((len / 128) as u8);
        }
        out.push((len / 0x4000 % 256) as u8);
        if len / 0x4000 > 0 {
            out.push(0);
        }
    } else {
        out.push(len as u8);
        out.push(0);
    }
    assert(out@ =~= before + item_length(len as int));
}

/// Renders the shared-string table.
pub fn render_shared_strings(strings: &StringTable, uses: u64) -> (out: Vec<u8>)
    ensures
        out@ == shared_strings_bin(strings@, uses as int),
{
    let mut out: Vec<u8> = Vec::new();
    out.push(159);
    out.push(1);
    out.push(8);
    push_u32_le(&mut out, to_low32(strings.len() as u64));
    push_u32_le(&mut out, to_low32(uses));
    let ghost open = out@;
    assert(open + Seq::<u8>::empty() =~= open);
    let mut i: usize = 0;
    while i < strings.len()
        invariant
            i <= strings@.len(),
            out@ == open + sst_items(strings@, i as nat),
        decreases strings@.len() - i,
    {
        let ghost before = out@;
        let chars = chars_of(strings.get(i));
        let units = utf16_units(&chars);
        out.push(19);
        push_item_length(&mut out, 5 + 2 * (units.len() as u128));
        push_u32_le(&mut out, to_low32(units.len() as u64));
        push_units(&mut out, &units);
        assert(out@ =~= before + sst_item(strings@[i as int]));
        assert(out@ =~= open + sst_items(strings@, i as nat + 1));
        i += 1;
    }
    out.push(160);
    out.push(1);
    out.push(0);
    assert(out@ =~= shared_strings_bin(strings@, uses as int));
    out
}

/// A number format record.
pub open spec fn format_record(id: u16, format: Seq<char>) -> Seq<u8> {
    crate::biff12::record(
        0x2c,
        le16(id) + crate::big_buffer::le32(crate::xlsb_cells::low32(unit_count(format) as int))
            + utf16_bytes(format),
    )
}

/// The records of the first `n` formats. Their ids start at 167.
pub open spec fn format_records(formats: Seq<Seq<char>>, n: nat) -> Seq<u8>
    decreases n,
{
    if n == 0 {
        Seq::empty()
    } else {
        format_records(formats, (n - 1) as nat) + format_record((166 + n) as u16, formats[n - 1])
    }
}

/// A cell style record: its font, its number format, and what it applies.
pub open spec fn style_record(font: u16, format: u16, flags: u16, marked: u8) -> Seq<u8> {
    seq![0x2fu8, 16u8] + le16(font) + le16(format) + seq![
        marked,
        0u8,
        0u8,
        0u8,
        0u8,
        0u8,
        0u8,
        0u8,
        0x10u8,
        0x10u8,
    ] + le16(flags)
}

/// The cell styles of the first `n` formats.
pub open spec fn style_records(n: nat) -> Seq<u8>
    decreases n,
{
    if n == 0 {
        Seq::empty()
    } else {
        style_records((n - 1) as nat) + style_record(0, (166 + n) as u16, 1, 0)
    }
}

/// The number formats of the style part, up to their end mark.
#[verifier::opaque]
pub open spec fn format_section(formats: Seq<Seq<char>>) -> Seq<u8> {
    crate::biff12::record(0x267, le16((2 + formats.len()) as u16) + seq![0u8, 0u8])
        + format_record(164, "yyyy\\-mm\\-dd\\ hh:mm"@) + format_record(166, "yyyy\\-mm\\-dd"@)
        + format_records(formats, formats.len()) + crate::biff12::record(0x268, Seq::empty())
}

/// The cell styles of the style part, up to their end mark.
#[verifier::opaque]
pub open spec fn style_section(n: nat) -> Seq<u8> {
    crate::biff12::record(0x269, le16((4 + n) as u16) + seq![0u8, 0u8]) + style_record(0, 0, 0, 0)
        + style_record(0, 164, 1, 0) + style_record(0, 166, 1, 0) + style_record(1, 0, 0, 1)
        + style_records(n) + crate::biff12::record(0x26a, Seq::empty())
}

/// The style part: the template as it is, or with the number formats and cell
/// styles of the workbook put into it.
pub open spec fn styles_bin(base: Seq<u8>, formats: Seq<Seq<char>>) -> Seq<u8> {
    let layout = crate::xlsb_templates::style_layout(base);
    if formats.len() == 0 {
        base
    } else {
        base.take(3) + format_section(formats) + base.subrange(layout.fill_begin, layout.xf_begin)
            + style_section(formats.len()) + base.skip(layout.xf_end + 3)
    }
}

fn push_format_record(out: &mut Vec<u8>, id: u16, format: &str)
    ensures
        final(out)@ == old(out)@ + format_record(id, format@),
{
    let chars = chars_of(format);
    let units = utf16_units(&chars);
    let mut payload: Vec<u8> = Vec::new();
    push_u16_le(&mut payload, id);
    push_u32_le(&mut payload, to_low32(units.len() as u64));
    push_units(&mut payload, &units);
    assert(payload@ =~= le16(id) + crate::big_buffer::le32(
        crate::xlsb_cells::low32(unit_count(format@) as int),
    ) + utf16_bytes(format@));
    let mut bytes = build_record(0x2c, &payload);
    out.append(&mut bytes);
}

fn push_style_record(out: &mut Vec<u8>, font: u16, format: u16, flags: u16, marked: u8)
    ensures
        final(out)@ == old(out)@ + style_record(font, format, flags, marked),
{
    let ghost before = out@;
    out.push(0x2f);
    out.push(16);
    push_u16_le(out, font);
    push_u16_le(out, format);
    out.push(marked);
    out.push(0);
    out.push(0);
    out.push(0);
    out.push(0);
    out.push(0);
    out.push(0);
    out.push(0);
    out.push(0x10);
    out.push(0x10);
    push_u16_le(out, flags);
    assert(out@ =~= before + style_record(font, format, flags, marked));
}

fn push_count_record(out: &mut Vec<u8>, id: u32, n: u16)
    ensures
        final(out)@ == old(out)@ + crate::biff12::record(id as nat, le16(n) + seq![0u8, 0u8]),
{
    let mut payload: Vec<u8> = Vec::new();
    push_u16_le(&mut payload, n);
    payload.push(0);
    payload.push(0);
    assert(payload@ =~= le16(n) + seq![0u8, 0u8]);
    let mut bytes = build_record(id, &payload);
    out.append(&mut bytes);
}

fn push_empty_record(out: &mut Vec<u8>, id: u32)
    ensures
        final(out)@ == old(out)@ + crate::biff12::record(id as nat, Seq::empty()),
{
    let payload: Vec<u8> = Vec::new();
    let mut bytes = build_record(id, &payload);
    assert(payload@ =~= Seq::<u8>::empty());
    out.append(&mut bytes);
}

fn render_formats(formats: &StringTable) -> (out: Vec<u8>)
    requires
        formats@.len() <= 251,
    ensures
        out@ == format_section(formats@),
{
    reveal(format_section);
    let mut out: Vec<u8> = Vec::new();
    let n: usize = formats.len();
    push_count_record(&mut out, 0x267, (2 + n) as u16);
    assert(out@ =~= crate::biff12::record(0x267, le16((2 + n) as u16) + seq![0u8, 0u8]));
    push_format_record(&mut out, 164, "yyyy\\-mm\\-dd\\ hh:mm");
    push_format_record(&mut out, 166, "yyyy\\-mm\\-dd");
    let ghost open = out@;
    assert(open + Seq::<u8>::empty() =~= open);
    let mut i: usize = 0;
    while i < n
        invariant
            i <= n == formats@.len(),
            n <= 251,
            out@ == open + format_records(formats@, i as nat),
        decreases n - i,
    {
        push_format_record(&mut out, (167 + i) as u16, formats.get(i));
        assert(out@ =~= open + format_records(formats@, i as nat + 1));
        i += 1;
    }
    push_empty_record(&mut out, 0x268);
    out
}

fn render_cell_styles(n: usize) -> (out: Vec<u8>)
    requires
        n <= 251,
    ensures
        out@ == style_section(n as nat),
{
    reveal(style_section);
    let mut out: Vec<u8> = Vec::new();
    push_count_record(&mut out, 0x269, (4 + n) as u16);
    assert(out@ =~= crate::biff12::record(0x269, le16((4 + n) as u16) + seq![0u8, 0u8]));
    push_style_record(&mut out, 0, 0, 0, 0);
    push_style_record(&mut out, 0, 164, 1, 0);
    push_style_record(&mut out, 0, 166, 1, 0);
    push_style_record(&mut out, 1, 0, 0, 1);
    let ghost middle = out@;
    assert(middle + Seq::<u8>::empty() =~= middle);
    let mut i: usize = 0;
    while i < n
        invariant
            i <= n <= 251,
            out@ == middle + style_records(i as nat),
        decreases n - i,
    {
        push_style_record(&mut out, 0, (167 + i) as u16, 1, 0);
        assert(out@ =~= middle + style_records(i as nat + 1));
        i += 1;
    }
    push_empty_record(&mut out, 0x26a);
    out
}

/// Renders the style part.
pub fn render_styles(base: &Vec<u8>, formats: &StringTable) -> (out: Vec<u8>)
    requires
        formats@.len() <= 251,
        base@.len() >= 3,
        ({
            let layout = crate::xlsb_templates::style_layout(base@);
            &&& layout.font_end + 3 <= base@.len()
            &&& layout.fill_begin <= layout.xf_begin
            &&& layout.xf_end + 3 <= base@.len()
        }),
    ensures
        out@ == styles_bin(base@, formats@),
{
    let mut out: Vec<u8> = Vec::new();
    if formats.len() == 0 {
        append_bytes(&mut out, base);
        assert(out@ =~= base@);
        return out;
    }
    let (fill_begin, xf_begin, xf_end) = match locate_styles(base) {
        Some(found) => found,
        None => {
            assert(false);
            (3, 3, 3)
        },
    };
    let end: usize = base.len();
    assert(xf_end + 3 <= end);
    append_bytes(&mut out, vstd::slice::slice_subrange(base.as_slice(), 0, 3));
    assert(out@ =~= base@.take(3));
    let mut numbers = render_formats(formats);
    out.append(&mut numbers);
    append_bytes(&mut out, vstd::slice::slice_subrange(base.as_slice(), fill_begin, xf_begin));
    let mut styles = render_cell_styles(formats.len());
    out.append(&mut styles);
    append_bytes(
        &mut out,
        vstd::slice::slice_subrange(base.as_slice(), xf_end + 3, end),
    );
    assert(base@.subrange(xf_end as int + 3, base@.len() as int) =~= base@.skip(xf_end as int + 3));
    out
}

/// The rows and columns that the filter of a sheet covers.
#[derive(Debug, Clone, Copy, PartialEq, Eq, Structural)]
pub struct FilterData {
    pub start_row: u32,
    pub end_row: u32,
    pub start_column: u32,
    pub end_column: u32,
}

/// A sheet of the workbook being written. The sheets are numbered from one in the
/// order in which they were added.
pub struct BinSheetInfo {
    pub name: String,
    pub hidden: bool,
    pub filter_data: Option<FilterData>,
}

/// What a sheet of the workbook stands for.
pub struct BinSheet {
    pub name: Seq<char>,
    pub hidden: bool,
    pub filter: Option<FilterData>,
}

pub open spec fn bin_sheets(list: Seq<BinSheetInfo>) -> Seq<BinSheet> {
    Seq::new(
        list.len(),
        |i: int|
            BinSheet { name: list[i].name@, hidden: list[i].hidden, filter: list[i].filter_data },
    )
}

/// The relationship id of a sheet, by its number.
pub open spec fn sheet_rel_id(n: int) -> Seq<char> {
    "rId"@ + crate::text::decimal(n)
}

/// The payload of a sheet record, by the number of the sheet.
pub open spec fn sheet_payload(n: int, sheet: BinSheet) -> Seq<u8> {
    let r_id = sheet_rel_id(n);
    crate::big_buffer::le32(
        if sheet.hidden {
            1
        } else {
            0
        },
    ) + crate::big_buffer::le32(crate::xlsb_cells::low32(n)) + crate::big_buffer::le32(
        crate::xlsb_cells::low32(unit_count(r_id) as int),
    ) + utf16_bytes(r_id) + crate::big_buffer::le32(
        crate::xlsb_cells::low32(unit_count(sheet.name) as int),
    ) + utf16_bytes(sheet.name)
}

/// A sheet record.
pub open spec fn sheet_record(n: int, sheet: BinSheet) -> Seq<u8> {
    crate::biff12::record(0x9c, sheet_payload(n, sheet))
}

/// The records of the first `n` sheets.
pub open spec fn sheet_records(sheets: Seq<BinSheet>, n: nat) -> Seq<u8>
    decreases n,
{
    if n == 0 {
        Seq::empty()
    } else {
        sheet_records(sheets, (n - 1) as nat) + sheet_record(n as int, sheets[n - 1])
    }
}

/// How many of the first `n` sheets have a filter.
pub open spec fn filter_count(sheets: Seq<BinSheet>, n: nat) -> nat
    decreases n,
{
    if n == 0 {
        0
    } else {
        filter_count(sheets, (n - 1) as nat) + if sheets[n - 1].filter is Some {
            1nat
        } else {
            0
        }
    }
}

/// The head of the list of filtered sheets.
pub open spec fn filter_list_head(count: int) -> Seq<u8> {
    let size = if count <= 20 {
        0x10 + (count - 1) * 0x0c
    } else {
        0x80 + (count - 21) * 0x0c
    };
    if count <= 10 {
        seq![size as u8, count as u8, 0u8, 0u8, 0u8]
    } else {
        seq![size as u8, ((count - 1) / 10) as u8, count as u8, 0u8, 0u8, 0u8]
    }
}

/// The entry of a filtered sheet, by its zero-based index.
pub open spec fn filter_list_entry(index: int) -> Seq<u8> {
    let i = (index % 256) as u8;
    seq![0u8, 0u8, 0u8, 0u8, i, 0u8, 0u8, 0u8, i, 0u8, 0u8, 0u8]
}

/// The entries of the filtered ones among the first `n` sheets.
pub open spec fn filter_list(sheets: Seq<BinSheet>, n: nat) -> Seq<u8>
    decreases n,
{
    if n == 0 {
        Seq::empty()
    } else {
        filter_list(sheets, (n - 1) as nat) + if sheets[n - 1].filter is Some {
            filter_list_entry(n - 1)
        } else {
            Seq::empty()
        }
    }
}

/// The name that stands for the filter of a sheet, by the zero-based index of the
/// sheet and its place among the filtered ones.
pub open spec fn filter_name(
    t: crate::xlsb_templates::Templates,
    filter: FilterData,
    index: int,
    place: int,
) -> Seq<u8> {
    t.filter_fix1.update(7, (index % 256) as u8).update(
        t.filter_fix1.len() - 2,
        (place % 256) as u8,
    ) + crate::big_buffer::le32(filter.start_row) + crate::big_buffer::le32(filter.end_row) + le16(
        (filter.start_column % 0x1_0000) as u16,
    ) + le16((filter.end_column % 0x1_0000) as u16) + t.filter_fix2
}

/// The filter names of the first `n` sheets.
pub open spec fn filter_names(
    t: crate::xlsb_templates::Templates,
    sheets: Seq<BinSheet>,
    n: nat,
) -> Seq<u8>
    decreases n,
{
    if n == 0 {
        Seq::empty()
    } else {
        filter_names(t, sheets, (n - 1) as nat) + match sheets[n - 1].filter {
            Some(filter) => filter_name(
                t,
                filter,
                n - 1,
                filter_count(sheets, (n - 1) as nat) as int,
            ),
            None => Seq::empty(),
        }
    }
}

/// The filters of the workbook part, nothing where there are none.
pub open spec fn filter_section(
    t: crate::xlsb_templates::Templates,
    sheets: Seq<BinSheet>,
) -> Seq<u8> {
    let n = sheets.len();
    let count = filter_count(sheets, n);
    if count > 0 {
        t.filter_fix0 + filter_list_head(count as int) + filter_list(sheets, n) + seq![
            0xe2u8,
            0x02u8,
            0u8,
        ] + filter_names(t, sheets, n)
    } else {
        Seq::empty()
    }
}

/// The workbook part.
pub open spec fn workbook_bin(
    t: crate::xlsb_templates::Templates,
    sheets: Seq<BinSheet>,
    autofilter_is_on: bool,
) -> Seq<u8> {
    t.workbook_bin_start + sheet_records(sheets, sheets.len()) + t.workbook_bin_middle + (
    if autofilter_is_on {
        filter_section(t, sheets)
    } else {
        Seq::empty()
    }) + t.workbook_bin_end
}

fn push_sheet_record(out: &mut Vec<u8>, n: usize, sheet: &BinSheetInfo)
    ensures
        final(out)@ == old(out)@ + sheet_record(
            n as int,
            BinSheet { name: sheet.name@, hidden: sheet.hidden, filter: sheet.filter_data },
        ),
{
    let ghost model = BinSheet {
        name: sheet.name@,
        hidden: sheet.hidden,
        filter: sheet.filter_data,
    };
    let mut r_id = "rId".to_owned();
    push_decimal(&mut r_id, n as i128);
    let r_chars = chars_of(r_id.as_str());
    let r_units = utf16_units(&r_chars);
    let n_chars = chars_of(sheet.name.as_str());
    let n_units = utf16_units(&n_chars);
    let mut payload: Vec<u8> = Vec::new();
    push_u32_le(
        &mut payload,
        if sheet.hidden {
            1
        } else {
            0
        },
    );
    push_u32_le(&mut payload, to_low32(n as u64));
    push_u32_le(&mut payload, to_low32(r_units.len() as u64));
    push_units(&mut payload, &r_units);
    push_u32_le(&mut payload, to_low32(n_units.len() as u64));
    push_units(&mut payload, &n_units);
    assert(payload@ =~= sheet_payload(n as int, model));
    let ghost before = out@;
    let mut record = build_record(0x9c, &payload);
    out.append(&mut record);
    assert(out@ =~= before + sheet_record(n as int, model));
}

fn push_filter_list_head(out: &mut Vec<u8>, count: usize)
    requires
        0 < count <= 31,
    ensures
        final(out)@ == old(out)@ + filter_list_head(count as int),
{
    let ghost before = out@;
    let c: u8 = count as u8;
    let size: u8 = if c <= 20 {
        0x10 + (c - 1) * 0x0c
    } else {
        0x80 + (c - 21) * 0x0c
    };
    out.push(size);
    if c > 10 {
        out.push((c - 1) / 10);
    }
    out.push(c);
    out.push(0);
    out.push(0);
    out.push(0);
    assert(out@ =~= before + filter_list_head(count as int));
}

fn push_filter_name(
    out: &mut Vec<u8>,
    t: &XlsbTemplates,
    filter: FilterData,
    index: usize,
    place: usize,
)
    requires
        t@.filter_fix1.len() >= 8,
    ensures
        final(out)@ == old(out)@ + filter_name(t@, filter, index as int, place as int),
{
    let ghost before = out@;
    let mut fix1: Vec<u8> = Vec::new();
    append_bytes(&mut fix1, &t.filter_fix1);
    assert(fix1@ =~= t@.filter_fix1);
    let last: usize = fix1.len() - 2;
    fix1.set(7, (index % 256) as u8);
    fix1.set(last, (place % 256) as u8);
    append_bytes(out, &fix1);
    push_u32_le(out, filter.start_row);
    push_u32_le(out, filter.end_row);
    push_u16_le(out, (filter.start_column % 0x1_0000) as u16);
    push_u16_le(out, (filter.end_column % 0x1_0000) as u16);
    append_bytes(out, &t.filter_fix2);
}

/// The number of sheets with a filter.
pub fn count_filters(list: &Vec<BinSheetInfo>) -> (n: usize)
    ensures
        n == filter_count(bin_sheets(list@), list@.len()),
{
    let ghost sheets = bin_sheets(list@);
    let mut count: usize = 0;
    let mut i: usize = 0;
    while i < list.len()
        invariant
            i <= list.len(),
            count <= i,
            sheets == bin_sheets(list@),
            count == filter_count(sheets, i as nat),
        decreases list.len() - i,
    {
        if list[i].filter_data.is_some() {
            count += 1;
        }
        i += 1;
    }
    count
}

fn render_filters(t: &XlsbTemplates, list: &Vec<BinSheetInfo>) -> (out: Vec<u8>)
    requires
        t@.filter_fix1.len() >= 8,
        filter_count(bin_sheets(list@), list@.len()) <= 31,
    ensures
        out@ == filter_section(t@, bin_sheets(list@)),
{
    let ghost sheets = bin_sheets(list@);
    let mut out: Vec<u8> = Vec::new();
    let count: usize = count_filters(list);
    if count == 0 {
        assert(out@ =~= Seq::<u8>::empty());
        return out;
    }
    append_bytes(&mut out, &t.filter_fix0);
    assert(out@ =~= t@.filter_fix0);
    push_filter_list_head(&mut out, count);
    let ghost open = out@;
    assert(open + Seq::<u8>::empty() =~= open);
    let mut i: usize = 0;
    while i < list.len()
        invariant
            i <= list.len(),
            sheets == bin_sheets(list@),
            out@ == open + filter_list(sheets, i as nat),
        decreases list.len() - i,
    {
        let ghost before = out@;
        if list[i].filter_data.is_some() {
            let index: u8 = (i % 256) as u8;
            out.push(0);
            out.push(0);
            out.push(0);
            out.push(0);
            out.push(index);
            out.push(0);
            out.push(0);
            out.push(0);
            out.push(index);
            out.push(0);
            out.push(0);
            out.push(0);
            assert(out@ =~= before + filter_list_entry(i as int));
        }
        assert(out@ =~= open + filter_list(sheets, i as nat + 1));
        i += 1;
    }
    let ghost listed = out@;
    out.push(0xe2);
    out.push(0x02);
    out.push(0);
    assert(out@ =~= listed + seq![0xe2u8, 0x02u8, 0u8]);
    let ghost middle = out@;
    assert(middle + Seq::<u8>::empty() =~= middle);
    let mut place: usize = 0;
    let mut i: usize = 0;
    while i < list.len()
        invariant
            i <= list.len(),
            place <= i,
            t@.filter_fix1.len() >= 8,
            sheets == bin_sheets(list@),
            place == filter_count(sheets, i as nat),
            out@ == middle + filter_names(t@, sheets, i as nat),
        decreases list.len() - i,
    {
        match list[i].filter_data {
            Some(filter) => {
                push_filter_name(&mut out, t, filter, i, place);
                place += 1;
            },
            None => {},
        }
        assert(out@ =~= middle + filter_names(t@, sheets, i as nat + 1));
        i += 1;
    }
    out
}

/// Renders the workbook part.
pub fn render_workbook(
    t: &XlsbTemplates,
    list: &Vec<BinSheetInfo>,
    autofilter_is_on: bool,
) -> (out: Vec<u8>)
    requires
        t@.filter_fix1.len() >= 8,
        filter_count(bin_sheets(list@), list@.len()) <= 31,
    ensures
        out@ == workbook_bin(t@, bin_sheets(list@), autofilter_is_on),
{
    let ghost sheets = bin_sheets(list@);
    let mut out: Vec<u8> = Vec::new();
    append_bytes(&mut out, &t.workbook_bin_start);
    assert(out@ =~= t@.workbook_bin_start);
    let ghost open = out@;
    assert(open + Seq::<u8>::empty() =~= open);
    let mut i: usize = 0;
    while i < list.len()
        invariant
            i <= list.len(),
            sheets == bin_sheets(list@),
            out@ == open + sheet_records(sheets, i as nat),
        decreases list.len() - i,
    {
        push_sheet_record(&mut out, i + 1, &list[i]);
        assert(out@ =~= open + sheet_records(sheets, i as nat + 1));
        i += 1;
    }
    append_bytes(&mut out, &t.workbook_bin_middle);
    let ghost middle = out@;
    if autofilter_is_on {
        let mut filters = render_filters(t, list);
        out.append(&mut filters);
    }
    assert(out@ =~= middle + if autofilter_is_on {
        filter_section(t@, sheets)
    } else {
        Seq::empty()
    });
    append_bytes(&mut out, &t.workbook_bin_end);
    out
}

} // verus!
