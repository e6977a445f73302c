//! Workbooks of both formats, through archives in memory.

use spreadsheet::big_buffer::EntryData;
use spreadsheet::datetime::{from_oa_milliseconds, to_oa_milliseconds, DateTimeParts};
use spreadsheet::number::{Number, NumberImage, NumberTable};
use spreadsheet::xlsb_templates::XlsbTemplates;
use spreadsheet::xlsx_reader::RowProgress;
use spreadsheet::xlsx_writer::Entry;
use spreadsheet::zip_store::ZipStore;
use spreadsheet::{
    build_record, CellValue, SheetOptions, SpreadsheetError, XlsbReader, XlsbSheetOptions,
    XlsbUpdater, XlsbWriter, XlsmUpdater, XlsxReader, XlsxUpdater, XlsxWriter, F,
};
use std::io::{Cursor, Read, Write};

fn double(value: f64) -> Number {
    Number::Double(value.to_bits())
}

fn image_of(number: Number) -> NumberImage {
    let value = match number {
        Number::Double(bits) => f64::from_bits(bits),
        Number::Hundredths(bits) => f64::from_bits(bits) / 100.0,
    };
    NumberImage {
        bits: value.to_bits(),
        shortest: ryu::Buffer::new().format(value).to_owned(),
        display: value.to_string(),
    }
}

fn numbers_of(rows: &[Vec<CellValue>]) -> NumberTable {
    let mut table = NumberTable::new();
    for cell in rows.iter().flatten() {
        match spreadsheet::unwrap_cell(cell) {
            CellValue::Number(n) | CellValue::DateTime(n) => table.record(n, image_of(n)),
            _ => {}
        }
    }
    table
}

fn text(s: &str) -> CellValue {
    CellValue::Text(s.into())
}

fn xf(format: u16) -> Vec<u8> {
    let mut payload = vec![0u8; 16];
    payload[2..4].copy_from_slice(&format.to_le_bytes());
    build_record(0x2f, &payload)
}

fn custom_format(id: u16, code: &str) -> Vec<u8> {
    let units: Vec<u16> = code.encode_utf16().collect();
    let mut payload = id.to_le_bytes().to_vec();
    payload.extend((units.len() as u32).to_le_bytes());
    payload.extend(units.iter().flat_map(|u| u.to_le_bytes()));
    build_record(0x2c, &payload)
}

fn templates() -> XlsbTemplates {
    let styles_bin_base = [
        build_record(0x116, &[]),
        build_record(0x267, &[2, 0, 0, 0]),
        custom_format(164, "yyyy\\-mm\\-dd\\ hh:mm"),
        custom_format(166, "yyyy\\-mm\\-dd"),
        build_record(0x268, &[]),
        build_record(0x263, &[1, 0, 0, 0]),
        build_record(0x264, &[]),
        build_record(0x269, &[4, 0, 0, 0]),
        xf(0),
        xf(164),
        xf(166),
        xf(0),
        build_record(0x26a, &[]),
        build_record(0x117, &[]),
    ]
    .concat();
    let sheet1_bytes = [
        build_record(0x81, &[]),
        build_record(0x93, &[0; 23]),
        build_record(0x94, &[0; 16]),
        build_record(0x85, &[]),
        build_record(0x89, &[0xdc; 30]),
        build_record(0x98, &[0; 36]),
        build_record(0x8a, &[]),
        build_record(0x86, &[]),
        build_record(0x1e5, &[0; 27]),
        build_record(0x91, &[]),
        build_record(0x25, &[0; 11]),
        vec![0; 43],
        build_record(0x92, &[]),
        build_record(0x1dd, &[0; 66]),
        build_record(0x82, &[]),
    ]
    .concat();
    assert_eq!(sheet1_bytes.len(), 293);
    let templates = XlsbTemplates {
        styles_bin_base,
        sheet1_bytes,
        sticky_header_a1: build_record(0x97, &[0; 29]),
        autofilter_start: vec![0xa1, 0x01, 16],
        autofilter_end: build_record(0xa2, &[]),
        filter_fix0: [build_record(0x161, &[]), build_record(0x165, &[]), vec![0xea, 0x02]].concat(),
        filter_fix1: vec![0x27, 32, 0, 0, 0, 0, 0, 0, 0, 0, 0, 0x3b, 0, 0],
        filter_fix2: vec![0; 8],
        workbook_bin_start: [
            build_record(0x83, &[]),
            build_record(0x99, &[0; 12]),
            build_record(0x8f, &[]),
        ]
        .concat(),
        workbook_bin_middle: build_record(0x90, &[]),
        workbook_bin_end: build_record(0x84, &[]),
        binary_index_bin: vec![0x2a, 0x18],
    };
    assert!(templates.is_usable());
    templates
}

fn bytes_of(data: &EntryData) -> Vec<u8> {
    let mut bytes = Vec::new();
    data.write_to(&mut bytes);
    bytes
}

/// The workbook as the bytes of a ZIP archive.
fn archive(entries: &[Entry], level: i64) -> Vec<u8> {
    let mut zip = zip::ZipWriter::new(Cursor::new(Vec::new()));
    let options = zip::write::SimpleFileOptions::default()
        .compression_method(zip::CompressionMethod::Deflated)
        .compression_level(Some(level));
    for entry in entries {
        zip.start_file(entry.name.as_str(), options).unwrap();
        zip.write_all(&bytes_of(&entry.data)).unwrap();
    }
    zip.finish().unwrap().into_inner()
}

/// The members of a ZIP archive.
fn unpack(bytes: Vec<u8>) -> ZipStore {
    let mut archive = zip::ZipArchive::new(Cursor::new(bytes)).unwrap();
    let mut store = ZipStore::new();
    for index in 0..archive.len() {
        let mut entry = archive.by_index(index).unwrap();
        let name = entry.name().unwrap().into_owned();
        let mut data = Vec::new();
        entry.read_to_end(&mut data).unwrap();
        store.add_member(&name, data);
    }
    store
}

fn date() -> DateTimeParts {
    DateTimeParts { year: 2024, month: 2, day: 29, hour: 10, minute: 20, second: 30, nanosecond: 0 }
}

fn date_cell() -> CellValue {
    let serial = to_oa_milliseconds(date()).unwrap() as f64 / 86_400_000.0;
    CellValue::DateTime(double(serial))
}

fn date_of(cell: &CellValue) -> DateTimeParts {
    let serial = match cell {
        CellValue::DateTime(Number::Double(bits)) => f64::from_bits(*bits),
        other => panic!("expected a date, got {other:?}"),
    };
    from_oa_milliseconds((serial * 86_400_000.0) as i64).unwrap()
}

fn headers() -> Vec<String> {
    [
        "Text",
        "Integer",
        "Number",
        "Boolean",
        "Date",
        "Custom date",
    ]
    .into_iter()
    .map(str::to_owned)
    .collect()
}

fn rows() -> Vec<Vec<CellValue>> {
    vec![
        vec![
            text("żółć & <tag> 😀\n"),
            CellValue::Integer(-536_870_912),
            CellValue::Number(double(-0.001)),
            CellValue::Boolean(false),
            date_cell(),
            CellValue::formatted(date_cell(), F::DATE_ISO.to_owned()),
        ],
        vec![
            text("  spaced  "),
            CellValue::Integer(536_870_911),
            CellValue::Number(double(1.7976931348623157e20)),
            CellValue::Boolean(true),
            date_cell(),
            CellValue::formatted(date_cell(), F::DATETIME_ISO.to_owned()),
        ],
    ]
}

fn write_workbook(xlsb: bool, streaming: bool) -> ZipStore {
    let header = headers();
    let data = rows();
    let numbers = numbers_of(&data);
    let other = vec![vec![text("untouched")]];
    let other_header = ["Value".to_string()];
    let (entries, level) = if xlsb {
        let mut writer = XlsbWriter::new(templates());
        if streaming {
            writer
                .start_sheet("Data", header.len(), Some(&header), XlsbSheetOptions::new(), &numbers)
                .unwrap();
            for row in &data {
                writer.write_row(row, &numbers).unwrap();
            }
            writer.end_sheet().unwrap();
        } else {
            writer.add_sheet("Data", false);
            writer.write_sheet(&data, Some(&header), true, &numbers).unwrap();
        }
        writer.add_sheet("Other", true);
        writer.write_sheet(&other, Some(&other_header), false, &numbers).unwrap();
        writer.finalize().unwrap()
    } else {
        let mut writer = XlsxWriter::new();
        if streaming {
            writer
                .start_sheet("Data", header.len(), Some(&header), SheetOptions::new(), &numbers)
                .unwrap();
            for row in &data {
                writer.write_row(row, &numbers).unwrap();
            }
            writer.end_sheet().unwrap();
        } else {
            writer.add_sheet("Data", false);
            writer.write_sheet(&data, Some(&header), true, &numbers).unwrap();
        }
        writer.add_sheet("Other", true);
        writer.write_sheet(&other, Some(&other_header), false, &numbers).unwrap();
        writer.finalize().unwrap()
    };
    unpack(archive(&entries, level))
}

fn assert_data_rows(rows: &[Vec<CellValue>]) {
    assert_eq!(rows.len(), 3);
    assert_eq!(rows[0][0], text("Text"));
    assert_eq!(rows[1][0], text("żółć & <tag> 😀\n"));
    assert_eq!(rows[1][1], CellValue::Number(double(-536_870_912.0)));
    assert_eq!(rows[1][2], CellValue::Number(double(-0.001)));
    assert_eq!(rows[1][3], CellValue::Boolean(false));
    assert_eq!(date_of(&rows[1][4]), date());
    assert_eq!(date_of(&rows[1][5]), date());
}

fn read_xlsx(zip: &ZipStore, sheet: &str) -> Vec<Vec<CellValue>> {
    let mut reader = XlsxReader::new();
    let rels = Some(zip.entry_data("xl/_rels/workbook.xml.rels").unwrap());
    reader.load_workbook(zip.entry_data("xl/workbook.xml").unwrap(), rels);
    reader.load_shared_strings(zip.entry_data("xl/sharedStrings.xml").unwrap());
    reader.load_styles(zip.entry_data("xl/styles.xml").unwrap());
    reader.finish_loading();
    let index = reader.find_sheet(sheet).unwrap();
    let path = reader.prepare_sheet(index).unwrap();
    reader.begin_sheet(index, zip.entry_data(&path).unwrap().to_vec());
    let mut rows = Vec::new();
    let mut progress = reader.read().unwrap();
    loop {
        progress = match progress {
            RowProgress::End => return rows,
            RowProgress::Row => {
                rows.push(reader.current_row().to_vec());
                reader.read().unwrap()
            }
            RowProgress::Number(raw) => {
                let number = fast_float2::parse::<f64, _>(&raw).ok();
                reader.resume(number.map(f64::to_bits)).unwrap()
            }
        };
    }
}

fn read_xlsb(zip: &ZipStore, sheet: &str) -> Vec<Vec<CellValue>> {
    let mut reader = XlsbReader::new();
    reader.load_workbook(zip.entry_data("xl/workbook.bin").unwrap()).unwrap();
    reader.load_relationships(zip.entry_data("xl/_rels/workbook.bin.rels").unwrap());
    reader.load_shared_strings(zip.entry_data("xl/sharedStrings.bin").unwrap()).unwrap();
    reader.load_styles(zip.entry_data("xl/styles.bin").unwrap()).unwrap();
    reader.finish_loading();
    let index = reader.find_sheet(sheet).unwrap();
    let path = reader.prepare_sheet(index).unwrap().unwrap();
    reader.begin_sheet(index, zip.entry_data(&path).unwrap().to_vec()).unwrap();
    let mut rows = Vec::new();
    while reader.read().unwrap() {
        rows.push(reader.current_row().to_vec());
    }
    rows
}

#[test]
fn writers_and_readers_cover_types_unicode_and_all_sheets() {
    for xlsb in [false, true] {
        for streaming in [false, true] {
            let zip = write_workbook(xlsb, streaming);
            let data = if xlsb {
                read_xlsb(&zip, "Data")
            } else {
                read_xlsx(&zip, "Data")
            };
            assert_data_rows(&data);
            let other = if xlsb {
                read_xlsb(&zip, "Other")
            } else {
                read_xlsx(&zip, "Other")
            };
            assert_eq!(other[1][0], text("untouched"));
        }
    }
}

fn prefix_xml(name: &str, mut xml: String) -> String {
    if name == "xl/workbook.xml" {
        xml = xml.replace("<workbook ", "<x:workbook xmlns:x=\"urn:test-main\" ");
        xml = xml.replace("</workbook>", "</x:workbook>");
        xml = xml.replace("<workbookPr ", "<x:workbookPr ");
        xml = xml.replace("<sheets>", "<x:sheets>");
        xml = xml.replace("</sheets>", "</x:sheets>");
        xml = xml.replace("<sheet ", "<x:sheet ");
    } else if name == "xl/_rels/workbook.xml.rels" {
        xml = xml.replace(
            "<Relationships ",
            "<x:Relationships xmlns:x=\"urn:test-rels\" ",
        );
        xml = xml.replace("</Relationships>", "</x:Relationships>");
        xml = xml.replace("<Relationship ", "<x:Relationship ");
    } else if name == "xl/styles.xml" {
        xml = xml.replace("<styleSheet ", "<x:styleSheet xmlns:x=\"urn:test-style\" ");
        xml = xml.replace("</styleSheet>", "</x:styleSheet>");
        for tag in ["numFmt", "cellXfs", "xf"] {
            xml = xml.replace(&format!("<{tag} "), &format!("<x:{tag} "));
            xml = xml.replace(&format!("</{tag}>"), &format!("</x:{tag}>"));
        }
    } else if name.starts_with("xl/worksheets/sheet") && name.ends_with(".xml") {
        xml = xml.replace("<worksheet ", "<x:worksheet xmlns:x=\"urn:test-sheet\" ");
        xml = xml.replace("</worksheet>", "</x:worksheet>");
        for tag in ["sheetData", "row", "c", "v", "t"] {
            xml = xml.replace(&format!("<{tag} "), &format!("<x:{tag} "));
            xml = xml.replace(&format!("<{tag}>"), &format!("<x:{tag}>"));
            xml = xml.replace(&format!("</{tag}>"), &format!("</x:{tag}>"));
        }
    } else if name == "xl/sharedStrings.xml" {
        xml = xml.replace("<sst ", "<x:sst xmlns:x=\"urn:test-sst\" ");
        xml = xml.replace("</sst>", "</x:sst>");
        for tag in ["si", "t"] {
            xml = xml.replace(&format!("<{tag} "), &format!("<x:{tag} "));
            xml = xml.replace(&format!("<{tag}>"), &format!("<x:{tag}>"));
            xml = xml.replace(&format!("</{tag}>"), &format!("</x:{tag}>"));
        }
    }
    xml
}

fn rewrite_zip(source: &ZipStore, extra: Option<(&str, &[u8])>) -> ZipStore {
    let mut entries = Vec::new();
    let mut has_extra = false;
    for name in source.entry_names() {
        let bytes = source.entry_data(&name).unwrap().to_vec();
        if name == extra.map(|(name, _)| name).unwrap_or("") {
            has_extra = true;
        }
        let bytes = if name.ends_with(".xml") {
            prefix_xml(&name, String::from_utf8(bytes).unwrap()).into_bytes()
        } else {
            bytes
        };
        entries.push(Entry { name, data: EntryData::from(bytes) });
    }
    if let Some((name, bytes)) = extra {
        if !has_extra {
            entries.push(Entry { name: name.to_owned(), data: EntryData::from(bytes.to_vec()) });
        }
    }
    unpack(archive(&entries, 6))
}

#[test]
fn xlsx_reader_and_updater_accept_namespace_prefixes() {
    let prefixed = rewrite_zip(&write_workbook(false, false), None);

    assert_data_rows(&read_xlsx(&prefixed, "Data"));
    let mut updater = XlsxUpdater::open(prefixed).unwrap();
    assert_eq!(updater.sheet_names(), vec!["Data", "Other"]);
    updater
        .replace_sheet_data("Data", vec![vec![text("prefix-safe")]], None, &NumberTable::new())
        .unwrap();
    let rows = read_xlsx(updater.store(), "Data");
    assert_eq!(rows[0][0], text("prefix-safe"));
}

fn stream_xlsx(
    updater: &mut XlsxUpdater,
    rows: &[Result<Vec<CellValue>, &str>],
    file: &str,
) -> Result<(), SpreadsheetError> {
    let numbers = NumberTable::new();
    let mut stream = updater.begin_stream("Data", None)?;
    let mut body = stream.header_row().to_owned();
    for row in rows {
        match row {
            Ok(row) => body.push_str(&updater.push_row(&mut stream, row, &numbers).text),
            Err(reason) => {
                updater.abort_stream(stream, file);
                return Err(SpreadsheetError::Other(reason.to_string()));
            }
        }
    }
    let (head, tail) = stream.frame()?;
    let part = updater.sheet_path("Data")?.to_owned();
    updater.complete_stream(stream, file)?;
    updater.load_staged(&part, format!("{head}{body}{tail}").into_bytes());
    Ok(())
}

fn stream_xlsb(
    updater: &mut XlsbUpdater,
    rows: &[Result<Vec<CellValue>, &str>],
    file: &str,
) -> Result<(), SpreadsheetError> {
    let numbers = NumberTable::new();
    let mut stream = updater.begin_stream("Data", None)?;
    let mut body = stream.header_row().to_vec();
    let mut starts = Vec::new();
    for row in rows {
        match row {
            Ok(row) => {
                starts.push(body.len());
                body.extend(updater.push_row(&mut stream, row, &numbers).bytes);
            }
            Err(reason) => {
                updater.abort_stream(stream, file);
                return Err(SpreadsheetError::Other(reason.to_string()));
            }
        }
    }
    let plan = stream.plan(body.len() as u64)?;
    for start in starts {
        body[start + 23..start + 27].copy_from_slice(&plan.last_col.to_le_bytes());
    }
    let old = stream.old_sheet();
    let mut whole = [&old[..plan.rows_start], &body[..], &old[plan.rows_end..]].concat();
    for overwrite in &plan.overwrites {
        let at = overwrite.offset as usize;
        whole[at..at + 4].copy_from_slice(&overwrite.value.to_le_bytes());
    }
    let part = updater.sheet_path("Data")?.to_owned();
    updater.complete_stream(stream, file)?;
    updater.load_staged(&part, whole);
    Ok(())
}

#[test]
fn streaming_updaters_roll_back_bad_rows_and_can_be_reused() {
    let first = [Ok(vec![text("staged-before-error"); 6])];
    let bad = [Ok(vec![text("valid"); 6]), Err("generator failed")];
    let again = [Ok(vec![text("reused"); 6])];
    for xlsb in [false, true] {
        let source = write_workbook(xlsb, false);
        if xlsb {
            let mut updater = XlsbUpdater::open(source).unwrap();
            stream_xlsb(&mut updater, &first, "first.tmp").unwrap();
            assert!(stream_xlsb(&mut updater, &bad, "second.tmp").is_err());
            stream_xlsb(&mut updater, &again, "third.tmp").unwrap();
            updater.materialize_staged().unwrap();
            assert_eq!(read_xlsb(updater.store(), "Data")[0][0], text("reused"));
        } else {
            let mut updater = XlsxUpdater::open(source).unwrap();
            stream_xlsx(&mut updater, &first, "first.tmp").unwrap();
            assert!(stream_xlsx(&mut updater, &bad, "second.tmp").is_err());
            stream_xlsx(&mut updater, &again, "third.tmp").unwrap();
            updater.materialize_staged().unwrap();
            assert_eq!(read_xlsx(updater.store(), "Data")[0][0], text("reused"));
        }
    }
}

#[test]
fn xlsm_updater_preserves_opaque_vba_payload() {
    let payload = b"synthetic-vba\0\xff\x10";
    let source = rewrite_zip(&write_workbook(false, false), Some(("xl/vbaProject.bin", payload)));

    let mut updater = XlsmUpdater::open(source).unwrap();
    updater
        .replace_sheet_data("Data", vec![vec![text("macro-safe")]], None, &NumberTable::new())
        .unwrap();
    assert_eq!(updater.store().entry_data("xl/vbaProject.bin").unwrap(), payload);
}
