//! XLSX workbooks: written, read back and updated.

use spreadsheet::big_buffer::EntryData;
use spreadsheet::datetime::{from_oa_milliseconds, to_oa_milliseconds, DateTimeParts};
use spreadsheet::number::{Number, NumberImage, NumberTable};
use spreadsheet::string_table::StringTable;
use spreadsheet::xlsx_cell_reader::CellProgress;
use spreadsheet::xlsx_parts::render_shared_strings;
use spreadsheet::xlsx_patch::{
    append_shared_strings, dim_ref_for, is_pivot_cache_def, is_pivot_table_def, patch_sheet_xml,
    refresh_pivot_table, update_pivot_cache,
};
use spreadsheet::xlsx_reader::RowProgress;
use spreadsheet::xlsx_styles::{
    collect_existing_styles, find_date_style_index, shared_string_ref_count,
};
use spreadsheet::xlsx_updater::RowStream;
use spreadsheet::xlsx_writer::Entry;
use spreadsheet::xml_documents::{parse_sheet_entries, parse_styles};
use spreadsheet::xml_patch::{find_tag, replace_int_attr, replace_or_add_xml_attribute};
use spreadsheet::zip_store::{PartSource, ZipStore};
use spreadsheet::{
    parse_shared_strings_xml, uses_1904_date_system, CellValue, CellValueRef,
    ReplaceSheetDataOptions, SheetOptions, SpreadsheetError, StyleFallback, XlsmUpdater,
    XlsxReader, XlsxUpdater, XlsxWriter, EXCEL_1904_DATE_OFFSET_DAYS,
};
use std::io::{Cursor, Write};

fn double(value: f64) -> Number {
    Number::Double(value.to_bits())
}

fn image_of(number: Number) -> NumberImage {
    let value = match number {
        Number::Double(bits) => f64::from_bits(bits),
        Number::Hundredths(bits) => f64::from_bits(bits) / 100.0,
    };
    NumberImage {
        bits: value.to_bits(),
        shortest: ryu::Buffer::new().format(value).to_owned(),
        display: value.to_string(),
    }
}

fn numbers_of(rows: &[Vec<CellValue>]) -> NumberTable {
    let mut table = NumberTable::new();
    for cell in rows.iter().flatten() {
        match spreadsheet::unwrap_cell(cell) {
            CellValue::Number(n) | CellValue::DateTime(n) => table.record(n, image_of(n)),
            _ => {}
        }
    }
    table
}

fn text(s: &str) -> CellValue {
    CellValue::Text(s.into())
}

fn chars(s: &str) -> Vec<char> {
    s.chars().collect()
}

fn words(list: &[&str]) -> Vec<String> {
    list.iter().map(|s| s.to_string()).collect()
}

fn bytes_of(data: &EntryData) -> Vec<u8> {
    let mut bytes = Vec::new();
    data.write_to(&mut bytes);
    bytes
}

fn package(entries: &[Entry]) -> ZipStore {
    let mut zip = ZipStore::new();
    for entry in entries {
        zip.add_member(&entry.name, bytes_of(&entry.data));
    }
    zip
}

fn part(zip: &ZipStore, name: &str) -> String {
    String::from_utf8(zip.entry_data(name).unwrap().to_vec()).unwrap()
}

/// The size of the workbook as a ZIP archive.
fn archived_size(entries: &[Entry], level: i64) -> usize {
    let mut zip = zip::ZipWriter::new(Cursor::new(Vec::new()));
    let options = zip::write::SimpleFileOptions::default()
        .compression_method(zip::CompressionMethod::Deflated)
        .compression_level(Some(level));
    for entry in entries {
        zip.start_file(entry.name.as_str(), options).unwrap();
        zip.write_all(&bytes_of(&entry.data)).unwrap();
    }
    zip.finish().unwrap().into_inner().len()
}

fn open_reader(zip: &ZipStore) -> XlsxReader {
    let mut reader = XlsxReader::new();
    if zip.has_entry("xl/workbook.xml") {
        let rels = "xl/_rels/workbook.xml.rels";
        let rels = if zip.has_entry(rels) { Some(zip.entry_data(rels).unwrap()) } else { None };
        reader.load_workbook(zip.entry_data("xl/workbook.xml").unwrap(), rels);
    }
    if zip.has_entry("xl/sharedStrings.xml") {
        reader.load_shared_strings(zip.entry_data("xl/sharedStrings.xml").unwrap());
    }
    if zip.has_entry("xl/styles.xml") {
        reader.load_styles(zip.entry_data("xl/styles.xml").unwrap());
    }
    reader.finish_loading();
    reader
}

fn select_index(reader: &mut XlsxReader, zip: &ZipStore, index: usize) {
    let path = reader.prepare_sheet(index).unwrap();
    reader.begin_sheet(index, zip.entry_data(&path).unwrap().to_vec());
}

fn number_bits(raw: &str) -> Option<u64> {
    fast_float2::parse::<f64, _>(raw).ok().map(f64::to_bits)
}

fn try_read(reader: &mut XlsxReader, zip: &ZipStore) -> Result<bool, SpreadsheetError> {
    if let Some(index) = reader.wanted_sheet() {
        select_index(reader, zip, index);
    }
    let mut progress = reader.read()?;
    loop {
        match progress {
            RowProgress::Row => return Ok(true),
            RowProgress::End => return Ok(false),
            RowProgress::Number(raw) => {
                assert!(reader.awaits_number());
                progress = reader.resume(number_bits(&raw))?;
            }
        }
    }
}

fn read(reader: &mut XlsxReader, zip: &ZipStore) -> bool {
    try_read(reader, zip).unwrap()
}

fn read_sheet(zip: &ZipStore, sheet: &str) -> Vec<Vec<CellValue>> {
    let mut reader = open_reader(zip);
    let index = reader.find_sheet(sheet).unwrap();
    select_index(&mut reader, zip, index);
    let mut rows = Vec::new();
    while read(&mut reader, zip) {
        rows.push(reader.current_row().to_vec());
    }
    rows
}

fn moment() -> DateTimeParts {
    DateTimeParts { year: 2025, month: 2, day: 3, hour: 12, minute: 30, second: 0, nanosecond: 0 }
}

fn serial_of(dt: DateTimeParts, uses_1904_date_system: bool) -> f64 {
    let oa = to_oa_milliseconds(dt).unwrap() as f64 / 86_400_000.0;
    if uses_1904_date_system {
        oa - EXCEL_1904_DATE_OFFSET_DAYS as f64
    } else {
        oa
    }
}

fn date_of(cell: &CellValue, uses_1904_date_system: bool) -> DateTimeParts {
    let serial = match cell {
        CellValue::DateTime(Number::Double(bits)) => f64::from_bits(*bits),
        other => panic!("expected a date, got {other:?}"),
    };
    let oa = if uses_1904_date_system {
        serial + EXCEL_1904_DATE_OFFSET_DAYS as f64
    } else {
        serial
    };
    from_oa_milliseconds((oa * 86_400_000.0) as i64).unwrap()
}

fn compression_sample(level: Option<i64>) -> (Vec<Entry>, i64) {
    let mut w = XlsxWriter::new();
    if let Some(level) = level {
        w.set_compression_level(level).unwrap();
    }
    w.add_sheet("Data", false);
    let row = vec![
        text("powtarzalny tekst żółć"),
        CellValue::Integer(42),
        CellValue::Number(double(1.5)),
    ];
    let rows = vec![row; 200];
    w.write_sheet(&rows, None, false, &numbers_of(&rows)).unwrap();
    w.finalize().unwrap()
}

#[test]
fn xlsx_writer_compression_level_validates_range() {
    let mut w = XlsxWriter::new();
    assert!(w.set_compression_level(1).is_ok());
    assert!(w.set_compression_level(9).is_ok());
    assert!(
        w.set_compression_level(0).is_err(),
        "level 0 is not supported by the zip backend"
    );
    assert!(w.set_compression_level(10).is_err());
    assert!(w.set_compression_level(-1).is_err());
}

#[test]
fn xlsx_writer_compression_level_default_matches_explicit_one() {
    let (default_entries, default_level) = compression_sample(None);
    let (explicit_entries, explicit_level) = compression_sample(Some(1));
    assert_eq!(default_level, explicit_level);
    assert_eq!(default_entries.len(), explicit_entries.len());
    for (a, b) in default_entries.iter().zip(&explicit_entries) {
        assert_eq!(a.name, b.name);
        assert_eq!(
            bytes_of(&a.data),
            bytes_of(&b.data),
            "default output must stay byte-identical to level 1"
        );
    }
}

#[test]
fn xlsx_writer_compression_level_9_shrinks_output() {
    let (entries, level) = compression_sample(None);
    let size_default = archived_size(&entries, level);
    let (entries, level) = compression_sample(Some(9));
    let size_9 = archived_size(&entries, level);
    assert!(
        size_9 < size_default,
        "level 9 ({size_9} B) should be smaller than the default level 1 ({size_default} B)"
    );
}

#[test]
fn xlsx_writer_roundtrip_basic() {
    let mut w = XlsxWriter::new();
    w.add_sheet("Sheet1", false);
    let rows = vec![
        vec![text("Name"), CellValue::Integer(30)],
        vec![CellValue::Boolean(true), CellValue::Empty],
    ];
    w.write_sheet(&rows, Some(&words(&["Name", "Age"])), true, &NumberTable::new()).unwrap();
    let zip = package(&w.finalize().unwrap().0);

    let mut r = open_reader(&zip);
    assert_eq!(r.sheet_names(), vec!["Sheet1".to_string()]);
    assert!(read(&mut r, &zip));
    assert_eq!(r.get_value(0), text("Name"));
    assert!(read(&mut r, &zip));
    assert_eq!(r.get_value(0), text("Name"));
    assert_eq!(r.get_value(1), CellValue::Number(double(30.0)));
}

#[test]
fn xlsx_writer_streaming_matches_batch() {
    let mut w = XlsxWriter::new();
    w.start_sheet("Data", 2, Some(&words(&["A", "B"])), SheetOptions::new(), &NumberTable::new())
        .unwrap();
    w.write_row(&[CellValue::Integer(1), text("x")], &NumberTable::new()).unwrap();
    w.end_sheet().unwrap();
    let zip = package(&w.finalize().unwrap().0);
    let mut r = open_reader(&zip);
    let mut rows = 0;
    while read(&mut r, &zip) {
        rows += 1;
    }
    assert_eq!(rows, 2);
}

#[test]
fn columns_beyond_zz_are_written_correctly() {
    let mut w = XlsxWriter::new();
    w.add_sheet("Wide", false);
    w.write_sheet(&vec![vec![CellValue::Integer(1); 703]], None, false, &NumberTable::new())
        .unwrap();
    let zip = package(&w.finalize().unwrap().0);
    let xml = part(&zip, "xl/worksheets/sheet1.xml");
    assert!(xml.contains("<dimension ref=\"A1:AAA1\"/>"));
}

#[test]
fn streaming_dimension_reflects_written_rows() {
    let mut w = XlsxWriter::new();
    let numbers = NumberTable::new();
    w.start_sheet("Stream", 3, Some(&words(&["H1", "H2", "H3"])), SheetOptions::new(), &numbers)
        .unwrap();
    for i in 0..4i64 {
        w.write_row(&[CellValue::Integer(i), text("x"), CellValue::Boolean(true)], &numbers)
            .unwrap();
    }
    w.end_sheet().unwrap();
    let zip = package(&w.finalize().unwrap().0);
    let xml = part(&zip, "xl/worksheets/sheet1.xml");
    // Header row + 4 data rows, 3 columns.
    assert!(xml.contains(r#"<dimension ref="A1:C5"/>"#));
    // The schema requires <dimension> before <sheetViews>.
    let dim = xml.find("<dimension").unwrap();
    let views = xml.find("<sheetViews").unwrap();
    assert!(dim < views);
}

#[test]
fn duplicate_names_are_disambiguated_and_stream_state_is_atomic() {
    let numbers = NumberTable::new();
    let mut w = XlsxWriter::new();
    w.add_sheet("Data", false);
    w.add_sheet("data", false);
    assert_eq!(w.sheet_name(1), Some("data (2)"));
    w.start_sheet("Stream", 1, None, SheetOptions::new(), &numbers).unwrap();
    assert!(matches!(
        w.start_sheet("Rejected", 1, None, SheetOptions::new(), &numbers),
        Err(SpreadsheetError::AlreadyStreaming)
    ));
    assert_eq!(w.sheet_count(), 3);
    assert!(matches!(w.finalize(), Err(SpreadsheetError::StreamingSheetOpen)));
}

#[test]
fn xlsx_writer_refuses_odd_rows() {
    let numbers = NumberTable::new();
    let mut w = XlsxWriter::new();
    assert!(matches!(w.write_row(&[], &numbers), Err(SpreadsheetError::NotStreaming)));
    assert!(matches!(w.end_sheet(), Err(SpreadsheetError::NotStreaming)));
    w.start_sheet("S", 2, None, SheetOptions::new(), &numbers).unwrap();
    assert!(matches!(
        w.write_row(&[CellValue::Empty], &numbers),
        Err(SpreadsheetError::RowLengthMismatch { expected: 2, got: 1 })
    ));
    assert!(matches!(
        XlsxWriter::new().start_sheet("T", 16_385, None, SheetOptions::new(), &numbers),
        Err(SpreadsheetError::InvalidFormat(_))
    ));
}

#[test]
fn xlsx_parts_stand_in_archive_order() {
    let mut w = XlsxWriter::new();
    w.add_sheet("A & B", true);
    w.write_sheet(&vec![vec![text("x")], vec![text("x")]], None, false, &NumberTable::new())
        .unwrap();
    let (entries, level) = w.finalize().unwrap();
    assert_eq!(level, 1);
    let names: Vec<&str> = entries.iter().map(|e| e.name.as_str()).collect();
    assert_eq!(
        names,
        vec![
            "xl/worksheets/sheet1.xml",
            "xl/sharedStrings.xml",
            "xl/styles.xml",
            "xl/workbook.xml",
            "[Content_Types].xml",
            "_rels/.rels",
            "xl/_rels/workbook.xml.rels",
        ]
    );
    let zip = package(&entries);
    assert!(part(&zip, "xl/workbook.xml").contains("A &amp; B"));
    assert!(part(&zip, "xl/sharedStrings.xml").contains("count=\"2\" uniqueCount=\"1\""));
}

#[test]
fn parses_date_serial_using_1904_system() {
    let expected = moment();
    let serial = serial_of(expected, true);
    let mut reader = XlsxReader::new();
    reader.load_workbook(
        br#"<workbook><workbookPr date1904="1"/><sheets><sheet name="S" sheetId="1"/></sheets></workbook>"#,
        None,
    );
    assert!(reader.uses_1904_date_system);
    reader.load_styles(
        br#"<styleSheet><cellXfs><xf numFmtId="0"/><xf numFmtId="14"/></cellXfs></styleSheet>"#,
    );
    let xml = format!(r#"<sheetData><row><c s="1"><v>{serial}</v></c></row></sheetData>"#);
    reader.begin_sheet(0, xml.into_bytes());
    assert!(read(&mut reader, &ZipStore::new()));
    assert_eq!(reader.current_row().len(), 1);
    assert_eq!(date_of(&reader.current_row()[0], true), expected);
}

#[test]
fn reads_escaped_value_fragments_as_one_string() {
    let mut reader = XlsxReader::new();
    reader.begin_sheet(0, br#"<row><c t="str"><v>A&amp;B</v></c></row>"#.to_vec());
    assert!(read(&mut reader, &ZipStore::new()));
    assert_eq!(reader.get_value(0), text("A&B"));
}

#[test]
fn sheet_entries_decode_names_and_local_relationship_names() {
    let entries = parse_sheet_entries(
        r#"<workbook><sheets><sheet name="A&amp;B" sheetId="1" rel:id="rId1"/></sheets></workbook>"#,
    );
    let entries: Vec<(String, String, String)> =
        entries.into_iter().map(|e| (e.name, e.sheet_id, e.r_id)).collect();
    assert_eq!(entries, vec![("A&B".into(), "1".into(), "rId1".into())]);
}

#[test]
fn escaped_literal_format_codes_are_not_dates() {
    let (xfs, custom_dates) = parse_styles(
        r#"<styleSheet><numFmts><numFmt numFmtId="200" formatCode="0 &quot;m&quot;"/></numFmts><cellXfs><xf numFmtId="200"/></cellXfs></styleSheet>"#,
    );
    assert_eq!(xfs, vec![200]);
    assert!(!custom_dates.contains(&200));
}

#[test]
fn streaming_reader_accumulates_entities_and_skips_inline_indentation() {
    let mut zip = ZipStore::new();
    zip.add_member(
        "xl/workbook.xml",
        br#"<workbook xmlns:r="urn:test"><sheets><sheet name="Data" sheetId="1" r:id="rId1"/></sheets></workbook>"#.to_vec(),
    );
    zip.add_member(
        "xl/_rels/workbook.xml.rels",
        br#"<Relationships><Relationship Id="rId1" Target="worksheets/sheet1.xml"/></Relationships>"#.to_vec(),
    );
    zip.add_member(
        "xl/worksheets/sheet1.xml",
        br#"<worksheet><sheetData><row r="1"><c r="A1" t="str"><v>A&amp;B</v></c><c r="B1" t="inlineStr"><is>
  <r><t>left</t></r>
  <r><t>right&amp;</t></r>
</is></c></row></sheetData></worksheet>"#.to_vec(),
    );

    let reader = open_reader(&zip);
    let path = reader.cell_path("Data").unwrap();
    let mut cells = reader.cell_reader(zip.entry_data(&path).unwrap().to_vec());
    // A value of type "str" may be a number: the reader asks.
    let raw = match cells.next_cell().unwrap() {
        CellProgress::Number(raw) => raw.to_owned(),
        other => panic!("expected a value, got {other:?}"),
    };
    let first = match cells.resume(number_bits(&raw)).unwrap() {
        CellProgress::Cell(cell) => cell,
        other => panic!("expected a cell, got {other:?}"),
    };
    assert_eq!(first.row, 0);
    assert_eq!(first.column, 0);
    assert_eq!(first.value, CellValueRef::Text("A&B"));
    let second = match cells.next_cell().unwrap() {
        CellProgress::Cell(cell) => cell,
        other => panic!("expected a cell, got {other:?}"),
    };
    assert_eq!(second.column, 1);
    assert_eq!(second.value, CellValueRef::Text("leftright&"));
    assert!(matches!(cells.next_cell().unwrap(), CellProgress::End));
}

#[test]
fn cells_stop_at_numbers() {
    let reader = XlsxReader::new();
    let mut cells = reader.cell_reader(
        br#"<sheetData><row r="3"><c r="B3"><v>2.5</v></c><c r="C3" t="b"><v>1</v></c><c r="D3"><v>x</v></c></row></sheetData>"#.to_vec(),
    );
    let raw = match cells.next_cell().unwrap() {
        CellProgress::Number(raw) => raw.to_owned(),
        other => panic!("expected a number, got {other:?}"),
    };
    assert_eq!(raw, "2.5");
    assert!(cells.awaits_number());
    match cells.resume(number_bits(&raw)).unwrap() {
        CellProgress::Cell(cell) => {
            assert_eq!((cell.row, cell.column), (2, 1));
            assert_eq!(cell.value, CellValueRef::Number(double(2.5)));
        }
        other => panic!("expected a cell, got {other:?}"),
    }
    match cells.next_cell().unwrap() {
        CellProgress::Cell(cell) => assert_eq!(cell.value, CellValueRef::Boolean(true)),
        other => panic!("expected a cell, got {other:?}"),
    }
    assert!(matches!(cells.next_cell().unwrap(), CellProgress::Number("x")));
    assert!(matches!(cells.resume(None), Err(SpreadsheetError::InvalidFormat(_))));
}

#[test]
fn xlsx_reader_reports_faults() {
    let mut reader = XlsxReader::new();
    assert!(matches!(reader.find_sheet("S"), Err(SpreadsheetError::SheetNotFound(_))));
    assert!(matches!(reader.prepare_sheet(0), Err(SpreadsheetError::InvalidFormat(_))));
    assert!(matches!(reader.read(), Ok(RowProgress::End)));
    let zip = ZipStore::new();
    reader.begin_sheet(0, b"<row><c><v>1".to_vec());
    assert!(try_read(&mut reader, &zip).is_err());
    reader.begin_sheet(0, br#"<row><c t="s"><v>5</v></c></row>"#.to_vec());
    assert!(read(&mut reader, &zip));
    assert_eq!(reader.get_value(9), CellValue::Empty);
}

#[test]
fn parses_1904_workbook_flag() {
    assert!(uses_1904_date_system(
        r#"<workbook><workbookPr date1904="1"/></workbook>"#
    ));
    assert!(uses_1904_date_system(
        r#"<workbook><workbookPr date1904="true"/></workbook>"#
    ));
    assert!(uses_1904_date_system(
        "<workbook><workbookPr date1904 = 'true'/></workbook>"
    ));
    assert!(!uses_1904_date_system(
        r#"<workbook><workbookPr date1904="0"/></workbook>"#
    ));
    assert!(!uses_1904_date_system(r#"<workbook/>"#));
}

#[test]
fn shared_strings_parsing() {
    let xml = r#"<sst><!-- <si><t>ignored</t></si> --><si><t>Hello</t></si><si><r><t>Wo&amp;rld</t></r><r><t><![CDATA[!]]></t></r></si></sst>"#;
    assert_eq!(parse_shared_strings_xml(xml), vec!["Hello", "Wo&rld!"]);
}

#[test]
fn shared_strings_ignore_formatting_between_text_runs() {
    let xml = "<sst>\n  <si>\n    <r><rPr/><t>first</t></r>\n    <r><t>second</t></r>\n  </si>\n</sst>";
    assert_eq!(parse_shared_strings_xml(xml), vec!["firstsecond"]);
}

fn sample_workbook() -> ZipStore {
    let mut w = XlsxWriter::new();
    w.add_sheet("data1", false);
    let rows = vec![
        vec![text("Alice"), CellValue::Integer(30)],
        vec![text("Bob"), CellValue::Integer(25)],
    ];
    w.write_sheet(&rows, Some(&words(&["NAME", "AGE"])), true, &NumberTable::new()).unwrap();
    w.add_sheet("other", false);
    w.write_sheet(&vec![vec![text("keep")]], Some(&words(&["COL"])), false, &NumberTable::new())
        .unwrap();
    package(&w.finalize().unwrap().0)
}

#[test]
fn written_texts_read_back_without_control_characters() {
    let mut w = XlsxWriter::new();
    w.add_sheet("S", false);
    let rows = vec![
        vec![text("a & b < \"c\" > 'd'"), text(" edges ")],
        vec![text("tab\tand\nline"), text("bell\u{7}")],
        vec![text("&amp;"), text("")],
    ];
    w.write_sheet(&rows, Some(&words(&["x\u{1}y", "z"])), false, &NumberTable::new()).unwrap();
    let zip = package(&w.finalize().unwrap().0);
    assert_eq!(
        read_sheet(&zip, "S"),
        vec![
            vec![text("xy"), text("z")],
            vec![text("a & b < \"c\" > 'd'"), text(" edges ")],
            vec![text("tab\tand\nline"), text("bell")],
            vec![text("&amp;"), text("")],
        ]
    );
}

#[test]
fn written_styles_tell_dates_from_numbers() {
    let mut w = XlsxWriter::new();
    w.add_sheet("S", false);
    let date = double(45000.5);
    let plain = double(7.25);
    let rows = vec![vec![
        CellValue::DateTime(date),
        CellValue::formatted(CellValue::Number(date), "yyyy-mm-dd".to_owned()),
        CellValue::formatted(CellValue::Number(plain), "0.00 \"d\"".to_owned()),
        CellValue::Number(plain),
    ]];
    w.write_sheet(&rows, None, false, &numbers_of(&rows)).unwrap();
    let zip = package(&w.finalize().unwrap().0);
    let (formats, dates) = parse_styles(&part(&zip, "xl/styles.xml"));
    assert_eq!(formats, vec![0, 14, 22, 0, 165, 166]);
    assert!(dates.contains(&165) && !dates.contains(&166));
    assert_eq!(
        read_sheet(&zip, "S"),
        vec![vec![
            CellValue::DateTime(date),
            CellValue::DateTime(date),
            CellValue::Number(plain),
            CellValue::Number(plain),
        ]]
    );
}

#[test]
fn written_sheets_read_back_by_name() {
    let mut w = XlsxWriter::new();
    w.add_sheet("R&D <1> \"x\"", false);
    w.write_sheet(&vec![vec![text("a")]], Some(&words(&["h"])), true, &NumberTable::new()).unwrap();
    w.add_sheet("zażółć", true);
    w.write_sheet(&vec![vec![text("b")]], None, false, &NumberTable::new()).unwrap();
    let zip = package(&w.finalize().unwrap().0);
    assert_eq!(
        part(&zip, "xl/workbook.xml"),
        r#"<?xml version="1.0" encoding="UTF-8" standalone="yes"?>
<workbook xmlns="http://schemas.openxmlformats.org/spreadsheetml/2006/main" xmlns:r="http://schemas.openxmlformats.org/officeDocument/2006/relationships">
<fileVersion appName="xl" lastEdited="4" lowestEdited="4" rupBuild="4505"/>
<workbookPr defaultThemeVersion="124226"/>
<bookViews><workbookView xWindow="240" yWindow="15" windowWidth="16095" windowHeight="9660"/></bookViews>
<sheets><sheet name="R&amp;D &lt;1&gt; &quot;x&quot;" sheetId="1" r:id="rId1"/><sheet name="zażółć" sheetId="2" state="hidden" r:id="rId2"/></sheets><definedNames><definedName name="_xlnm._FilterDatabase" localSheetId="0" hidden="1">&apos;R&amp;D &lt;1&gt; &quot;x&quot;&apos;!$A$1:$A$2</definedName></definedNames><calcPr calcId="124519" fullCalcOnLoad="1"/></workbook>"#
    );
    let r = open_reader(&zip);
    assert_eq!(r.sheet_names(), vec!["R&D <1> \"x\"", "zażółć"]);
    assert_eq!(read_sheet(&zip, "zażółć"), vec![vec![text("b")]]);
}

#[test]
fn updated_texts_stand_in_cells_without_shared_strings() {
    let full = sample_workbook();
    let mut zip = ZipStore::new();
    for name in full.entry_names() {
        if name != "xl/sharedStrings.xml" {
            zip.add_member(&name, full.entry_data(&name).unwrap().to_vec());
        }
    }
    let mut u = XlsxUpdater::open(zip).unwrap();
    u.replace_sheet_data(
        "data1",
        vec![
            vec![text(" a & b "), CellValue::Boolean(true), text("bell\u{7}")],
            vec![text(""), CellValue::Integer(7)],
        ],
        None,
        &NumberTable::new(),
    )
    .unwrap();
    assert!(!u.store().has_entry("xl/sharedStrings.xml"));
    assert_eq!(
        read_sheet(u.store(), "data1"),
        vec![
            vec![text(" a & b "), CellValue::Boolean(true), text("bell")],
            vec![CellValue::Empty, CellValue::Number(double(7.0))],
        ]
    );
}

/// Replaces the rows of a sheet row by row. The rows are kept under a file name.
fn stream_rows(
    updater: &mut XlsxUpdater,
    sheet: &str,
    rows: &[Result<Vec<CellValue>, &str>],
    file: &str,
) -> Result<(), SpreadsheetError> {
    let mut stream = updater.begin_stream(sheet, None)?;
    let mut body = stream.header_row().to_owned();
    let mut kept = body.len();
    for row in rows {
        let row = match row {
            Ok(row) => row,
            Err(reason) => {
                updater.abort_stream(stream, file);
                return Err(SpreadsheetError::Other(reason.to_string()));
            }
        };
        assert!(stream.has_room());
        let numbers = numbers_of(std::slice::from_ref(row));
        let fragment = updater.push_row(&mut stream, row, &numbers);
        body.push_str(&fragment.text);
        if fragment.stays {
            kept = body.len();
        }
    }
    body.truncate(kept);
    let sheet_part = updater.sheet_path(sheet)?.to_owned();
    let framed = framed_rows(&stream, &body)?;
    updater.complete_stream(stream, file)?;
    updater.load_staged(&sheet_part, framed);
    Ok(())
}

fn framed_rows(stream: &RowStream, body: &str) -> Result<Vec<u8>, SpreadsheetError> {
    let (head, tail) = stream.frame()?;
    Ok(format!("{head}{body}{tail}").into_bytes())
}

#[test]
fn xlsx_updater_replace_preserves_other_sheets() {
    let mut u = XlsxUpdater::open(sample_workbook()).unwrap();
    let names = u.sheet_names();
    assert!(names.contains(&"data1".to_string()));
    u.replace_sheet_data(
        "data1",
        vec![vec![text("Zed"), CellValue::Integer(99)]],
        Some(ReplaceSheetDataOptions {
            headers: Some(words(&["NAME", "AGE"])),
            style_fallback: StyleFallback::General,
        }),
        &NumberTable::new(),
    )
    .unwrap();
    let zip = u.store();

    let mut r = open_reader(zip);
    assert!(read(&mut r, zip));
    assert_eq!(r.get_value(0), text("NAME"));
    assert!(read(&mut r, zip));
    assert_eq!(r.get_value(0), text("Zed"));
    assert_eq!(r.get_value(1), CellValue::Number(double(99.0)));
    assert_eq!(read_sheet(zip, "other"), vec![vec![text("COL")], vec![text("keep")]]);
    assert_eq!(
        zip.entry_data("xl/worksheets/sheet2.xml").unwrap(),
        sample_workbook().entry_data("xl/worksheets/sheet2.xml").unwrap()
    );
}

#[test]
fn xlsx_updater_stream_replace_then_save_streaming() {
    let mut u = XlsxUpdater::open(sample_workbook()).unwrap();
    let rows = [
        Ok(vec![CellValue::Integer(1)]),
        Ok(vec![CellValue::Empty]),
        Ok(vec![CellValue::Empty]),
    ];
    stream_rows(&mut u, "data1", &rows, "rows.tmp").unwrap();
    assert_eq!(u.store().staged_path("xl/worksheets/sheet1.xml"), Some("rows.tmp"));
    let obsolete = u.materialize_staged().unwrap();
    assert_eq!(obsolete, vec!["rows.tmp".to_string()]);
    let zip = u.store();
    let mut r = open_reader(zip);
    let mut n = 0;
    while read(&mut r, zip) {
        n += 1;
    }
    // 1 data row (no headers passed; trailing empties trimmed)
    assert_eq!(n, 1);
}

#[test]
fn xlsx_updater_missing_sheet_errors() {
    let mut u = XlsxUpdater::open(sample_workbook()).unwrap();
    assert!(u.replace_sheet_data("nope", vec![], None, &NumberTable::new()).is_err());
}

#[test]
fn xlsx_updater_updater_writes_1904_date_serials() {
    let mut zip = sample_workbook();
    let mut workbook = part(&zip, "xl/workbook.xml");
    let marker = "<workbookPr ";
    let start = workbook.find(marker).unwrap();
    workbook.insert_str(start + marker.len(), "date1904=\"1\" ");
    zip.update_file("xl/workbook.xml", workbook.into_bytes());

    let expected = moment();
    let mut updater = XlsxUpdater::open(zip).unwrap();
    assert!(updater.counts_from_1904());
    let serial = serial_of(expected, updater.counts_from_1904());
    let rows = vec![vec![CellValue::DateTime(double(serial))]];
    let numbers = numbers_of(&rows);
    updater
        .replace_sheet_data(
            "data1",
            rows,
            Some(ReplaceSheetDataOptions {
                headers: None,
                style_fallback: StyleFallback::Inherit,
            }),
            &numbers,
        )
        .unwrap();

    let zip = updater.store();
    let sheet = part(zip, "xl/worksheets/sheet1.xml");
    assert!(
        sheet.contains(&format!("<v>{serial}</v>")),
        "sheet XML: {sheet}"
    );

    let mut reader = open_reader(zip);
    assert!(reader.uses_1904_date_system);
    assert!(read(&mut reader, zip));
    assert_eq!(date_of(&reader.get_value(0), true), expected);
}

#[test]
fn xlsx_updater_rolls_back_an_aborted_stream() {
    let mut u = XlsxUpdater::open(sample_workbook()).unwrap();
    let rows = [Ok(vec![text("valid")]), Err("generator failed")];
    assert!(stream_rows(&mut u, "data1", &rows, "first.tmp").is_err());
    let zip = u.store();
    let before = sample_workbook();
    for name in before.entry_names() {
        assert_eq!(zip.entry_data(&name).unwrap(), before.entry_data(&name).unwrap());
    }
}

#[test]
fn xlsm_updater_keeps_parts_it_does_not_know() {
    let payload = b"synthetic-vba\0\xff\x10";
    let mut zip = sample_workbook();
    zip.add_member("xl/vbaProject.bin", payload.to_vec());
    let mut updater = XlsmUpdater::open(zip).unwrap();
    updater
        .replace_sheet_data("data1", vec![vec![text("macro-safe")]], None, &NumberTable::new())
        .unwrap();
    assert_eq!(updater.store().entry_data("xl/vbaProject.bin").unwrap(), payload);
}

#[test]
fn staged_parts_give_way_to_files_and_back() {
    let mut zip = ZipStore::new();
    zip.add_member("a", vec![1]);
    zip.stage_part("a", "one.tmp");
    assert!(matches!(zip.entry_source("a"), PartSource::File("one.tmp")));
    assert!(zip.entry_data("a").is_err());
    zip.stage_part("a", "two.tmp");
    assert_eq!(zip.rollback_staged("a", Some("one.tmp".into()), "two.tmp"), Some("two.tmp".into()));
    assert_eq!(zip.staged_path("a"), Some("one.tmp"));
    assert_eq!(zip.update_file("a", vec![2]), Some("one.tmp".into()));
    assert!(matches!(zip.entry_source("a"), PartSource::Memory([2])));
    assert!(matches!(zip.entry_source("b"), PartSource::Absent));
    assert_eq!(zip.entry_names(), vec!["a".to_string()]);
    zip.stage_part("b", "three.tmp");
    assert_eq!(zip.dispose(), vec!["three.tmp".to_string()]);
}

#[test]
fn sheets_are_patched_in_place() {
    let xml = chars(r#"<worksheet><dimension ref="A1:B9"/><sheetData><row r="1"/></sheetData><autoFilter ref="A1:B9"/></worksheet>"#);
    let patched = patch_sheet_xml(&xml, &chars(r#"<row r="7"/>"#), 3, 2).unwrap();
    let patched: String = patched.into_iter().collect();
    assert_eq!(
        patched,
        r#"<worksheet><dimension ref="A1:B3"/><sheetData><row r="7"/></sheetData><autoFilter ref="A1:B3"/></worksheet>"#
    );
    assert_eq!(dim_ref_for(3, 2), "A1:B3");
    assert!(patch_sheet_xml(&chars("<worksheet/>"), &chars(""), 1, 1).is_err());
}

#[test]
fn styles_are_inherited_by_count() {
    let xml = chars(
        r#"<sheetData><row><c r="A1" s="9" t="s"><v>0</v></c></row><row><c r="A2" s="4"/></row><row><c r="A3" s="5"/></row><row><c r="A4" s="5" t="s"><v>1</v></c></row></sheetData>"#,
    );
    let styles = collect_existing_styles(&xml);
    assert_eq!(styles.data_style_of(0), 5);
    assert_eq!(styles.header_style_of(0), 9);
    assert_eq!(styles.data_style_of(1), 0);
    assert_eq!(shared_string_ref_count(&xml), 2);
}

#[test]
fn date_styles_are_found() {
    let xml = chars(r#"<styleSheet><cellXfs count="2"><xf numFmtId="0"/><xf numFmtId="14"/></cellXfs></styleSheet>"#);
    assert_eq!(find_date_style_index(&xml).unwrap(), Some(1));
}

#[test]
fn attributes_are_replaced_or_added() {
    let tag: String =
        replace_or_add_xml_attribute(&chars(r#"<a x="1"/>"#), "x", "2").into_iter().collect();
    assert_eq!(tag, r#"<a x="2"/>"#);
    let tag: String =
        replace_or_add_xml_attribute(&chars(r#"<a x="1"/>"#), "y", "2").into_iter().collect();
    assert_eq!(tag, r#"<a x="1" y="2"/>"#);
    let tag: String =
        replace_int_attr(&chars(r#"<sst count="1">"#), "count", 7).into_iter().collect();
    assert_eq!(tag, r#"<sst count="7">"#);
    let found = find_tag(&chars("<x:sheetData>"), 0, "sheetData").unwrap();
    assert_eq!((found.start, found.end), (0, 13));
}

#[test]
fn attributes_are_looked_for_in_lower_case_and_taken_by_bytes() {
    let set = |tag: &str| -> String {
        replace_or_add_xml_attribute(&chars(tag), "ref", "B2").into_iter().collect()
    };
    assert_eq!(set(r#"<x REF='A1'/>"#), r#"<x REF='B2'/>"#);
    assert_eq!(set(r#"<x a="é" ref="A1"/>"#), r#"<x a="é" ref="B2"/>"#);
    // In lower case these letters take a byte more and two bytes less.
    assert_eq!(set(r#"<x a="İ" ref="A1"/>"#), r#"<x a="İ" ref="A1" ref="B2"/>"#);
    assert_eq!(set("<x a=\"\u{212a}\" ref=\"A1\">"), "<x a=\"\u{212a}\" ref=\"A1\" ref=\"B2\">");
    let count: String =
        replace_int_attr(&chars(r#"<x a="İ" count="5"/>"#), "count", 7).into_iter().collect();
    assert_eq!(count, r#"<x a="İ" count="57"/>"#);
    assert_eq!(shared_string_ref_count(&chars(r#"<c a="é" T=' s '><c t="n">"#)), 1);
    assert_eq!(shared_string_ref_count(&chars(r#"<c a="İ" t="s">"#)), 0);
}

/// The sample workbook with another first worksheet.
fn workbook_with_sheet(xml: &str) -> ZipStore {
    let full = sample_workbook();
    let mut zip = ZipStore::new();
    for name in full.entry_names() {
        let data = if name == "xl/worksheets/sheet1.xml" {
            xml.as_bytes().to_vec()
        } else {
            full.entry_data(&name).unwrap().to_vec()
        };
        zip.add_member(&name, data);
    }
    zip
}

#[test]
fn updated_sheets_read_back_whatever_stood_around_their_rows() {
    let tails = ["", r#"<autoFilter xr:uid="{1}" ref="A1:B9"/>"#];
    let heads = ["", r#"<dimension ref="A1"/>"#, r#"<sheetPr><a b="ref"/></sheetPr>"#];
    let middles = [
        "<sheetData/>",
        "<sheetData />",
        "<sheetData>\n<row><c><v>1</v></c></row>\n</sheetData>",
    ];
    let rows = vec![
        vec![text("a < b"), CellValue::Integer(1)],
        vec![],
        vec![CellValue::Boolean(true)],
        vec![CellValue::Empty],
    ];
    let back = vec![
        vec![text("a < b"), CellValue::Number(double(1.0))],
        vec![],
        vec![CellValue::Boolean(true)],
    ];
    for head in heads {
        for middle in middles {
            for tail in tails {
                let xml = format!("<?xml version=\"1.0\"?><worksheet>{head}{middle}{tail}</worksheet>");
                let mut u = XlsxUpdater::open(workbook_with_sheet(&xml)).unwrap();
                u.replace_sheet_data("data1", rows.clone(), None, &NumberTable::new()).unwrap();
                let part = part(u.store(), "xl/worksheets/sheet1.xml");
                assert!(part.contains(r#"<dimension ref="A1:B3"/>"#));
                assert_eq!(part.contains(r#"xr:uid="{1}" ref="A1:B3""#), !tail.is_empty());
                assert_eq!(read_sheet(u.store(), "data1"), back);

                let mut u = XlsxUpdater::open(workbook_with_sheet(&xml)).unwrap();
                let stream: Vec<Result<Vec<CellValue>, &str>> =
                    rows.iter().cloned().map(Ok).collect();
                stream_rows(&mut u, "data1", &stream, "rows.tmp").unwrap();
                u.materialize_staged().unwrap();
                assert_eq!(read_sheet(u.store(), "data1"), back);
            }
        }
    }
}

#[test]
fn shared_strings_are_appended() {
    let xml = chars(r#"<sst count="1" uniqueCount="1"><si><t>a</t></si></sst>"#);
    let xml: String =
        append_shared_strings(&xml, 3, 2, &vec!["b".to_string()]).unwrap().into_iter().collect();
    assert_eq!(
        xml,
        r#"<sst count="3" uniqueCount="2"><si><t>a</t></si><si><t>b</t></si></sst>"#
    );
}

#[test]
fn pivots_are_refreshed() {
    assert!(is_pivot_cache_def("xl/pivotCache/pivotCacheDefinition1.xml"));
    assert!(!is_pivot_cache_def("xl/pivotCache/pivotCacheRecords1.xml"));
    assert!(is_pivot_table_def("xl/pivotTables/pivotTable12.xml"));
    let xml = chars(
        r#"<pivotCacheDefinition recordCount="1"><cacheSource type="worksheet"><worksheetSource ref="A1:B2" sheet="Data"/></cacheSource></pivotCacheDefinition>"#,
    );
    let updated: String =
        update_pivot_cache(&xml, "Data", "A1:B9", 8).unwrap().into_iter().collect();
    assert!(updated.contains(r#"ref="A1:B9""#));
    assert!(updated.contains(r#"<pivotCacheDefinition recordCount="8">"#));
    assert!(update_pivot_cache(&xml, "Else", "A1:B9", 8).is_none());
    let table: String = refresh_pivot_table(&chars(r#"<pivotTableDefinition name="P">"#))
        .unwrap()
        .into_iter()
        .collect();
    assert!(table.contains(r#"refreshOnLoad="1""#));
    assert!(refresh_pivot_table(&chars("<x/>")).is_none());
}

#[test]
fn added_shared_strings_read_behind_the_old_ones() {
    let mut table = StringTable::new();
    table.push("a & b");
    table.push("c");
    let xml: Vec<char> = render_shared_strings(&table, 5).chars().collect();
    let added = vec![" x ".to_string(), "<y>".to_string()];
    let grown: String =
        append_shared_strings(&xml, 7, 4, &added).unwrap().into_iter().collect();
    assert!(grown.contains("count=\"7\" uniqueCount=\"4\">"));
    assert!(grown.ends_with(
        "<si><t xml:space=\"preserve\"> x </t></si><si><t>&lt;y&gt;</t></si></sst>"
    ));
    assert_eq!(parse_shared_strings_xml(&grown), vec!["a & b", "c", " x ", "<y>"]);
}

#[test]
fn cells_stand_in_the_rows_that_are_named() {
    let reader = XlsxReader::new();
    let mut cells = reader.cell_reader(
        br#"<worksheet><sheetData><row r="5"><c r="B5" t="b"><v>1</v></c></row><row><c t="b"><v>0</v></c></row><row r="0"><c t="b"><v>0</v></c></row><row r="A9"><c t="b"><v>0</v></c></row></sheetData></worksheet>"#.to_vec(),
    );
    for place in [(4, 1), (5, 0), (6, 0), (7, 0)] {
        match cells.next_cell().unwrap() {
            CellProgress::Cell(cell) => assert_eq!((cell.row, cell.column), place),
            other => panic!("expected a cell, got {other:?}"),
        }
    }
    assert!(matches!(cells.next_cell().unwrap(), CellProgress::End));
}

#[test]
fn written_cells_read_back_one_by_one() {
    let rows = vec![
        vec![CellValue::Integer(7), text("x & y")],
        vec![CellValue::Empty, CellValue::Boolean(true)],
    ];
    let mut w = XlsxWriter::new();
    w.add_sheet("S", false);
    w.write_sheet(&rows, Some(&words(&["A", "B"])), true, &NumberTable::new()).unwrap();
    let zip = package(&w.finalize().unwrap().0);
    let reader = open_reader(&zip);
    let bytes = zip.entry_data(&reader.cell_path("S").unwrap()).unwrap().to_vec();
    let mut cells = reader.cell_reader(bytes);
    for (row, column, value) in [(0, 0, "A"), (0, 1, "B")] {
        match cells.next_cell().unwrap() {
            CellProgress::Cell(cell) => {
                assert_eq!((cell.row, cell.column, cell.value), (row, column, CellValueRef::Text(value)))
            }
            other => panic!("expected a cell, got {other:?}"),
        }
    }
    assert!(matches!(cells.next_cell().unwrap(), CellProgress::Number("7")));
    match cells.resume(number_bits("7")).unwrap() {
        CellProgress::Cell(cell) => {
            assert_eq!((cell.row, cell.column, cell.value), (1, 0, CellValueRef::Number(double(7.0))))
        }
        other => panic!("expected a cell, got {other:?}"),
    }
    for (row, column, value) in
        [(1, 1, CellValueRef::Text("x & y")), (2, 0, CellValueRef::Boolean(true))]
    {
        match cells.next_cell().unwrap() {
            CellProgress::Cell(cell) => assert_eq!((cell.row, cell.column, cell.value), (row, column, value)),
            other => panic!("expected a cell, got {other:?}"),
        }
    }
    assert!(matches!(cells.next_cell().unwrap(), CellProgress::End));
}

#[test]
fn xlsx_updates_after_a_failed_stream_are_as_if_it_had_not_been() {
    let failing = [Ok(vec![text("new"), text("Alice")]), Err("no more")];
    let rows = vec![vec![text("Zed"), text("new")]];
    let mut plain = XlsxUpdater::open(sample_workbook()).unwrap();
    let mut u = XlsxUpdater::open(sample_workbook()).unwrap();
    assert!(stream_rows(&mut u, "data1", &failing, "rows.tmp").is_err());
    for replace in [false, true] {
        if replace {
            u.replace_sheet_data("data1", rows.clone(), None, &NumberTable::new()).unwrap();
            plain.replace_sheet_data("data1", rows.clone(), None, &NumberTable::new()).unwrap();
        }
        assert_eq!(u.store().entry_names(), plain.store().entry_names());
        for name in plain.store().entry_names() {
            assert_eq!(u.store().entry_data(&name).unwrap(), plain.store().entry_data(&name).unwrap());
        }
    }
}
