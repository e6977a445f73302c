//! The XML parts of an XLSB workbook.

use vstd::prelude::*;
use crate::text::push_decimal;
use crate::xlsx_parts::RELS_OPEN;

verus! {

pub const CONTENT_TYPES_OPEN: &'static str = r#"<?xml version="1.0" encoding="UTF-8" standalone="yes"?>
<Types xmlns="http://schemas.openxmlformats.org/package/2006/content-types">
<Default Extension="bin" ContentType="application/vnd.ms-excel.sheet.binary.macroEnabled.main"/>
<Default Extension="rels" ContentType="application/vnd.openxmlformats-package.relationships+xml"/>
<Default Extension="xml" ContentType="application/xml"/>"#;

pub const CONTENT_TYPES_CLOSE: &'static str = r#"<Override PartName="/xl/styles.bin" ContentType="application/vnd.ms-excel.styles"/>
<Override PartName="/xl/sharedStrings.bin" ContentType="application/vnd.ms-excel.sharedStrings"/>
</Types>"#;

/// The content types of the first `n` sheets.
pub open spec fn sheet_types(n: nat) -> Seq<char>
    decreases n,
{
    if n == 0 {
        Seq::empty()
    } else {
        sheet_types((n - 1) as nat) + "<Override PartName=\"/xl/worksheets/sheet"@
            + crate::text::decimal(n as int)
            + ".bin\" ContentType=\"application/vnd.ms-excel.worksheet\"/><Override PartName=\"/xl/worksheets/binaryIndex"@
            + crate::text::decimal(n as int)
            + ".bin\" ContentType=\"application/vnd.ms-excel.binIndexWs\"/>"@
    }
}

/// The content types part.
pub open spec fn content_types_xml(sheet_count: nat) -> Seq<char> {
    CONTENT_TYPES_OPEN@ + sheet_types(sheet_count) + CONTENT_TYPES_CLOSE@
}

/// Renders the content types part.
pub fn render_content_types(sheet_count: usize) -> (xml: String)
    ensures
        xml@ == content_types_xml(sheet_count as nat),
{
    let mut xml = CONTENT_TYPES_OPEN.to_owned();
    let ghost open = xml@;
    assert(open + Seq::<char>::empty() =~= open);
    let mut i: usize = 0;
    while i < sheet_count
        invariant
            i <= sheet_count,
            xml@ == open + sheet_types(i as nat),
        decreases sheet_count - i,
    {
        xml.append("<Override PartName=\"/xl/worksheets/sheet");
        push_decimal(&mut xml, i as i128 + 1);
        xml.append(
            ".bin\" ContentType=\"application/vnd.ms-excel.worksheet\"/><Override PartName=\"/xl/worksheets/binaryIndex",
        );
        push_decimal(&mut xml, i as i128 + 1);
        xml.append(".bin\" ContentType=\"application/vnd.ms-excel.binIndexWs\"/>");
        assert(xml@ =~= open + sheet_types(i as nat + 1));
        i += 1;
    }
    xml.append(CONTENT_TYPES_CLOSE);
    xml
}

/// The relationships of the archive.
pub const GLOBAL_RELS: &'static str = r#"<?xml version="1.0" encoding="UTF-8" standalone="yes"?>
<Relationships xmlns="http://schemas.openxmlformats.org/package/2006/relationships">
<Relationship Id="rId1" Type="http://schemas.openxmlformats.org/officeDocument/2006/relationships/officeDocument" Target="xl/workbook.bin"/>
</Relationships>"#;

/// The relationships of the first `n` sheets.
pub open spec fn sheet_rels(n: nat) -> Seq<char>
    decreases n,
{
    if n == 0 {
        Seq::empty()
    } else {
        sheet_rels((n - 1) as nat) + "<Relationship Id=\"rId"@ + crate::text::decimal(n as int)
            + "\" Type=\"http://schemas.openxmlformats.org/officeDocument/2006/relationships/worksheet\" Target=\"worksheets/sheet"@
            + crate::text::decimal(n as int) + ".bin\"/>"@
    }
}

/// The relationships of the workbook: its sheets, then its styles and its shared
/// strings. One id is left out behind those of the sheets.
pub open spec fn workbook_rels(sheet_count: nat) -> Seq<char> {
    RELS_OPEN@ + sheet_rels(sheet_count) + "<Relationship Id=\"rId"@ + crate::text::decimal(
        sheet_count as int + 2,
    )
        + "\" Type=\"http://schemas.openxmlformats.org/officeDocument/2006/relationships/styles\" Target=\"styles.bin\"/>\n<Relationship Id=\"rId"@
        + crate::text::decimal(sheet_count as int + 3)
        + "\" Type=\"http://schemas.openxmlformats.org/officeDocument/2006/relationships/sharedStrings\" Target=\"sharedStrings.bin\"/>\n</Relationships>"@
}

/// Renders the relationships of the workbook.
pub fn render_workbook_rels(sheet_count: usize) -> (xml: String)
    ensures
        xml@ == workbook_rels(sheet_count as nat),
{
    let mut xml = RELS_OPEN.to_owned();
    let ghost open = xml@;
    assert(open + Seq::<char>::empty() =~= open);
    let mut i: usize = 0;
    while i < sheet_count
        invariant
            i <= sheet_count,
            xml@ == open + sheet_rels(i as nat),
        decreases sheet_count - i,
    {
        xml.append("<Relationship Id=\"rId");
        push_decimal(&mut xml, i as i128 + 1);
        xml.append(
            "\" Type=\"http://schemas.openxmlformats.org/officeDocument/2006/relationships/worksheet\" Target=\"worksheets/sheet",
        );
        push_decimal(&mut xml, i as i128 + 1);
        xml.append(".bin\"/>");
        assert(xml@ =~= open + sheet_rels(i as nat + 1));
        i += 1;
    }
    xml.append("<Relationship Id=\"rId");
    push_decimal(&mut xml, sheet_count as i128 + 2);
    xml.append(
        "\" Type=\"http://schemas.openxmlformats.org/officeDocument/2006/relationships/styles\" Target=\"styles.bin\"/>\n<Relationship Id=\"rId",
    );
    push_decimal(&mut xml, sheet_count as i128 + 3);
    xml.append(
        "\" Type=\"http://schemas.openxmlformats.org/officeDocument/2006/relationships/sharedStrings\" Target=\"sharedStrings.bin\"/>\n</Relationships>",
    );
    xml
}

pub const SHEET_RELS_OPEN: &'static str = r#"<?xml version="1.0" encoding="UTF-8" standalone="yes"?>
<Relationships xmlns="http://schemas.openxmlformats.org/package/2006/relationships">
<Relationship Id="rId1" Type="http://schemas.microsoft.com/office/2006/relationships/xlBinaryIndex" Target="binaryIndex"#;

/// The relationships of a sheet, by its number: its binary index.
pub open spec fn sheet_part_rels(n: int) -> Seq<char> {
    SHEET_RELS_OPEN@ + crate::text::decimal(n) + ".bin\"/>\n</Relationships>"@
}

/// Renders the relationships of a sheet.
pub fn render_sheet_part_rels(n: usize) -> (xml: String)
    ensures
        xml@ == sheet_part_rels(n as int),
{
    let mut xml = SHEET_RELS_OPEN.to_owned();
    push_decimal(&mut xml, n as i128);
    xml.append(".bin\"/>\n</Relationships>");
    xml
}

} // verus!
