//! XLSB workbooks: written, read back and updated.

use spreadsheet::big_buffer::EntryData;
use spreadsheet::biff12::parse_shared_strings_bin;
use spreadsheet::datetime::{from_oa_milliseconds, to_oa_milliseconds, DateTimeParts};
use spreadsheet::number::{Number, NumberImage, NumberTable};
use spreadsheet::xlsb_patch::{
    collect_styles, find_date_xf, find_rows_region, patch_sheet, push_string_item, set_counts,
    shared_string_ref_count, update_pivot_cache,
};
use spreadsheet::xlsb_templates::XlsbTemplates;
use spreadsheet::xlsx_writer::Entry;
use spreadsheet::zip_store::ZipStore;
use spreadsheet::{
    build_record, read_record, BigBuffer, Biff12Record, CellValue, CellValueRef,
    ReplaceSheetDataOptions, SpreadsheetError, StyleFallback, XlsbReader, XlsbSheetOptions,
    XlsbUpdater, XlsbWriter, EXCEL_1904_DATE_OFFSET_DAYS, F,
};
use std::io::{Cursor, Write};

fn double(value: f64) -> Number {
    Number::Double(value.to_bits())
}

fn image_of(number: Number) -> NumberImage {
    let value = match number {
        Number::Double(bits) => f64::from_bits(bits),
        Number::Hundredths(bits) => f64::from_bits(bits) / 100.0,
    };
    NumberImage {
        bits: value.to_bits(),
        shortest: ryu::Buffer::new().format(value).to_owned(),
        display: value.to_string(),
    }
}

fn numbers_of(rows: &[Vec<CellValue>]) -> NumberTable {
    let mut table = NumberTable::new();
    for cell in rows.iter().flatten() {
        match spreadsheet::unwrap_cell(cell) {
            CellValue::Number(n) | CellValue::DateTime(n) => table.record(n, image_of(n)),
            _ => {}
        }
    }
    table
}

fn text(s: &str) -> CellValue {
    CellValue::Text(s.into())
}

fn words(list: &[&str]) -> Vec<String> {
    list.iter().map(|s| s.to_string()).collect()
}

fn xf(format: u16) -> Vec<u8> {
    let mut payload = vec![0u8; 16];
    payload[2..4].copy_from_slice(&format.to_le_bytes());
    build_record(0x2f, &payload)
}

fn custom_format(id: u16, code: &str) -> Vec<u8> {
    let units: Vec<u16> = code.encode_utf16().collect();
    let mut payload = id.to_le_bytes().to_vec();
    payload.extend((units.len() as u32).to_le_bytes());
    payload.extend(units.iter().flat_map(|u| u.to_le_bytes()));
    build_record(0x2c, &payload)
}

fn templates() -> XlsbTemplates {
    let styles_bin_base = [
        build_record(0x116, &[]),
        build_record(0x267, &[2, 0, 0, 0]),
        custom_format(164, "yyyy\\-mm\\-dd\\ hh:mm"),
        custom_format(166, "yyyy\\-mm\\-dd"),
        build_record(0x268, &[]),
        build_record(0x263, &[1, 0, 0, 0]),
        build_record(0x264, &[]),
        build_record(0x269, &[4, 0, 0, 0]),
        xf(0),
        xf(164),
        xf(166),
        xf(0),
        build_record(0x26a, &[]),
        build_record(0x117, &[]),
    ]
    .concat();
    let sheet1_bytes = [
        build_record(0x81, &[]),
        build_record(0x93, &[0; 23]),
        build_record(0x94, &[0; 16]),
        build_record(0x85, &[]),
        build_record(0x89, &[0xdc; 30]),
        build_record(0x98, &[0; 36]),
        build_record(0x8a, &[]),
        build_record(0x86, &[]),
        build_record(0x1e5, &[0; 27]),
        build_record(0x91, &[]),
        build_record(0x25, &[0; 11]),
        vec![0; 43],
        build_record(0x92, &[]),
        build_record(0x1dd, &[0; 66]),
        build_record(0x82, &[]),
    ]
    .concat();
    assert_eq!(sheet1_bytes.len(), 293);
    let templates = XlsbTemplates {
        styles_bin_base,
        sheet1_bytes,
        sticky_header_a1: build_record(0x97, &[0; 29]),
        autofilter_start: vec![0xa1, 0x01, 16],
        autofilter_end: build_record(0xa2, &[]),
        filter_fix0: [build_record(0x161, &[]), build_record(0x165, &[]), vec![0xea, 0x02]].concat(),
        filter_fix1: vec![0x27, 32, 0, 0, 0, 0, 0, 0, 0, 0, 0, 0x3b, 0, 0],
        filter_fix2: vec![0; 8],
        workbook_bin_start: [
            build_record(0x83, &[]),
            build_record(0x99, &[0; 12]),
            build_record(0x8f, &[]),
        ]
        .concat(),
        workbook_bin_middle: build_record(0x90, &[]),
        workbook_bin_end: build_record(0x84, &[]),
        binary_index_bin: vec![0x2a, 0x18],
    };
    assert!(templates.is_usable());
    templates
}

fn bytes_of(data: &EntryData) -> Vec<u8> {
    let mut bytes = Vec::new();
    data.write_to(&mut bytes);
    bytes
}

fn package(entries: &[Entry]) -> ZipStore {
    let mut zip = ZipStore::new();
    for entry in entries {
        zip.add_member(&entry.name, bytes_of(&entry.data));
    }
    zip
}

/// The size of the workbook as a ZIP archive.
fn archived_size(entries: &[Entry], level: i64) -> usize {
    let mut zip = zip::ZipWriter::new(Cursor::new(Vec::new()));
    let options = zip::write::SimpleFileOptions::default()
        .compression_method(zip::CompressionMethod::Deflated)
        .compression_level(Some(level));
    for entry in entries {
        zip.start_file(entry.name.as_str(), options).unwrap();
        zip.write_all(&bytes_of(&entry.data)).unwrap();
    }
    zip.finish().unwrap().into_inner().len()
}

fn open_reader(zip: &ZipStore) -> XlsbReader {
    let mut reader = XlsbReader::new();
    reader.load_workbook(zip.entry_data("xl/workbook.bin").unwrap()).unwrap();
    reader.load_relationships(zip.entry_data("xl/_rels/workbook.bin.rels").unwrap());
    if zip.has_entry("xl/sharedStrings.bin") {
        reader.load_shared_strings(zip.entry_data("xl/sharedStrings.bin").unwrap()).unwrap();
    }
    if zip.has_entry("xl/styles.bin") {
        reader.load_styles(zip.entry_data("xl/styles.bin").unwrap()).unwrap();
    }
    reader.finish_loading();
    reader
}

fn select_index(reader: &mut XlsbReader, zip: &ZipStore, index: usize) -> bool {
    match reader.prepare_sheet(index).unwrap() {
        Some(path) => {
            reader.begin_sheet(index, zip.entry_data(&path).unwrap().to_vec()).unwrap()
        }
        None => false,
    }
}

fn read(reader: &mut XlsbReader, zip: &ZipStore) -> bool {
    if let Some(index) = reader.wanted_sheet() {
        if !select_index(reader, zip, index) {
            return false;
        }
    }
    reader.read().unwrap()
}

fn read_sheet(zip: &ZipStore, sheet: &str) -> Vec<Vec<CellValue>> {
    let mut reader = open_reader(zip);
    let index = reader.find_sheet(sheet).unwrap();
    select_index(&mut reader, zip, index);
    let mut rows = Vec::new();
    while read(&mut reader, zip) {
        rows.push(reader.current_row().to_vec());
    }
    rows
}

fn moment() -> DateTimeParts {
    DateTimeParts { year: 2025, month: 2, day: 3, hour: 12, minute: 30, second: 0, nanosecond: 0 }
}

fn serial_of(dt: DateTimeParts, uses_1904_date_system: bool) -> f64 {
    let oa = to_oa_milliseconds(dt).unwrap() as f64 / 86_400_000.0;
    if uses_1904_date_system {
        oa - EXCEL_1904_DATE_OFFSET_DAYS as f64
    } else {
        oa
    }
}

fn date_of(cell: &CellValue, uses_1904_date_system: bool) -> DateTimeParts {
    let serial = match cell {
        CellValue::DateTime(Number::Double(bits)) => f64::from_bits(*bits),
        other => panic!("expected a date, got {other:?}"),
    };
    let oa = if uses_1904_date_system {
        serial + EXCEL_1904_DATE_OFFSET_DAYS as f64
    } else {
        serial
    };
    from_oa_milliseconds((oa * 86_400_000.0) as i64).unwrap()
}

fn compression_sample(level: Option<i64>) -> (Vec<Entry>, i64) {
    let mut w = XlsbWriter::new(templates());
    if let Some(level) = level {
        w.set_compression_level(level).unwrap();
    }
    w.add_sheet("Data", false);
    let row = vec![
        text("powtarzalny tekst żółć"),
        CellValue::Integer(42),
        CellValue::Number(double(1.5)),
    ];
    let rows = vec![row; 200];
    w.write_sheet(&rows, None, false, &numbers_of(&rows)).unwrap();
    w.finalize().unwrap()
}

#[test]
fn xlsb_writer_compression_level_validates_range() {
    let mut w = XlsbWriter::new(templates());
    assert!(w.set_compression_level(1).is_ok());
    assert!(w.set_compression_level(9).is_ok());
    assert!(
        w.set_compression_level(0).is_err(),
        "level 0 is not supported by the zip backend"
    );
    assert!(w.set_compression_level(10).is_err());
    assert!(w.set_compression_level(-1).is_err());
}

#[test]
fn xlsb_writer_compression_level_default_matches_explicit_one() {
    let (default_entries, default_level) = compression_sample(None);
    let (explicit_entries, explicit_level) = compression_sample(Some(1));
    assert_eq!(default_level, explicit_level);
    assert_eq!(default_entries.len(), explicit_entries.len());
    for (a, b) in default_entries.iter().zip(&explicit_entries) {
        assert_eq!(a.name, b.name);
        assert_eq!(
            bytes_of(&a.data),
            bytes_of(&b.data),
            "default output must stay byte-identical to level 1"
        );
    }
}

#[test]
fn xlsb_writer_compression_level_9_shrinks_output() {
    let (entries, level) = compression_sample(None);
    let size_default = archived_size(&entries, level);
    let (entries, level) = compression_sample(Some(9));
    let size_9 = archived_size(&entries, level);
    assert!(
        size_9 < size_default,
        "level 9 ({size_9} B) should be smaller than the default level 1 ({size_default} B)"
    );
}

#[test]
fn rk_encoding_matches_ts_vector() {
    // The packed integer of 42 is (42 << 2) | 2 = 170.
    let w = XlsbWriter::new(templates());
    let mut buf = BigBuffer::default();
    w.write_rk_number_integer(&mut buf, 42, 0, 0);
    let bytes = buf.chunks_drain().concat();
    assert_eq!(bytes[0], 2);
    assert_eq!(bytes[1], 12);
    assert_eq!(i32::from_le_bytes(bytes[10..14].try_into().unwrap()), 170);
}

#[test]
fn xlsb_writer_roundtrip_basic() {
    let mut w = XlsbWriter::new(templates());
    w.add_sheet("Sheet1", false);
    let rows = vec![
        vec![text("Alice"), CellValue::Integer(30)],
        vec![CellValue::Boolean(true), CellValue::Number(double(1.5))],
    ];
    w.write_sheet(&rows, Some(&words(&["Name", "Age"])), true, &numbers_of(&rows)).unwrap();
    let zip = package(&w.finalize().unwrap().0);

    let mut r = open_reader(&zip);
    assert_eq!(r.sheet_names(), vec!["Sheet1".to_string()]);
    let mut rows: Vec<Vec<CellValue>> = Vec::new();
    while read(&mut r, &zip) {
        rows.push(r.current_row().to_vec());
        if rows.len() > 10 {
            break;
        }
    }
    // header + 2 data rows
    assert_eq!(rows[0][0], text("Name"));
    assert_eq!(rows[1][0], text("Alice"));
    assert_eq!(rows[1][1], CellValue::Number(double(30.0)));
    assert_eq!(rows[2][0], CellValue::Boolean(true));
    assert_eq!(rows[2][1], CellValue::Number(double(1.5)));
}

#[test]
fn xlsb_writer_streaming_matches_batch() {
    let numbers = NumberTable::new();
    let mut w = XlsbWriter::new(templates());
    w.start_sheet("Data", 2, Some(&words(&["A", "B"])), XlsbSheetOptions::new(), &numbers)
        .unwrap();
    w.write_row(&[CellValue::Integer(1), text("x")], &numbers).unwrap();
    w.end_sheet().unwrap();
    let zip = package(&w.finalize().unwrap().0);

    let mut r = open_reader(&zip);
    let mut non_empty = 0;
    loop {
        let has = read(&mut r, &zip);
        if !has {
            break;
        }
        if !r.current_row().is_empty() {
            non_empty += 1;
        }
        if non_empty > 10 {
            break;
        }
    }
    assert_eq!(non_empty, 2);
}

#[test]
fn unicode_sheet_names_roundtrip() {
    let mut w = XlsbWriter::new(templates());
    w.add_sheet("Dane żółć 😀", false);
    w.write_sheet(&vec![vec![CellValue::Integer(1)]], None, false, &NumberTable::new()).unwrap();
    let zip = package(&w.finalize().unwrap().0);
    let r = open_reader(&zip);
    assert_eq!(r.sheet_names(), vec!["Dane żółć 😀".to_string()]);
}

#[test]
fn xlsb_writer_refuses_what_does_not_fit() {
    let numbers = NumberTable::new();
    let mut w = XlsbWriter::new(templates());
    assert!(matches!(w.write_row(&[], &numbers), Err(SpreadsheetError::NotStreaming)));
    w.start_sheet("S", 2, None, XlsbSheetOptions::new(), &numbers).unwrap();
    assert!(matches!(
        w.start_sheet("T", 2, None, XlsbSheetOptions::new(), &numbers),
        Err(SpreadsheetError::AlreadyStreaming)
    ));
    assert!(matches!(
        w.write_row(&[CellValue::Empty], &numbers),
        Err(SpreadsheetError::RowLengthMismatch { expected: 2, got: 1 })
    ));
    assert!(matches!(w.finalize(), Err(SpreadsheetError::StreamingSheetOpen)));
}

#[test]
fn formats_reach_the_style_part() {
    let mut w = XlsbWriter::new(templates());
    w.add_sheet("Dates", false);
    let serial = serial_of(moment(), false);
    let rows = vec![vec![
        CellValue::formatted(CellValue::DateTime(double(serial)), F::DATE_ISO.to_owned()),
        CellValue::formatted(CellValue::Number(double(2.5)), "0.00".to_owned()),
    ]];
    w.write_sheet(&rows, None, false, &numbers_of(&rows)).unwrap();
    let zip = package(&w.finalize().unwrap().0);
    let rows = read_sheet(&zip, "Dates");
    assert_eq!(date_of(&rows[0][0], false), moment());
    assert_eq!(rows[0][1], CellValue::Number(double(2.5)));
}

#[test]
fn style_parts_tell_dates_from_numbers() {
    let rows = vec![vec![
        CellValue::formatted(CellValue::Number(double(1.5)), "0.00".to_owned()),
        CellValue::formatted(CellValue::Number(double(2.5)), "dd/mm/yyyy".to_owned()),
        CellValue::DateTime(double(45_000.25)),
        CellValue::Number(double(3.5)),
    ]];
    let mut w = XlsbWriter::new(templates());
    w.add_sheet("S", false);
    w.write_sheet(&rows, None, false, &numbers_of(&rows)).unwrap();
    let zip = package(&w.finalize().unwrap().0);
    assert_eq!(
        read_sheet(&zip, "S"),
        vec![vec![
            CellValue::Number(double(1.5)),
            CellValue::DateTime(double(2.5)),
            CellValue::DateTime(double(45_000.25)),
            CellValue::Number(double(3.5)),
        ]]
    );
}

#[test]
fn sheets_without_rows_end_at_once() {
    let mut w = XlsbWriter::new(templates());
    w.add_sheet("S", false);
    w.write_sheet(&vec![], None, false, &NumberTable::new()).unwrap();
    let zip = package(&w.finalize().unwrap().0);
    let mut reader = open_reader(&zip);
    assert!(!select_index(&mut reader, &zip, 0));
    assert_eq!(read_sheet(&zip, "S"), Vec::<Vec<CellValue>>::new());
    let mut u = XlsbUpdater::open(sample_workbook()).unwrap();
    u.replace_sheet_data("data1", vec![], None, &NumberTable::new()).unwrap();
    assert_eq!(read_sheet(u.store(), "data1"), Vec::<Vec<CellValue>>::new());
}

#[test]
fn updated_sheets_read_back_behind_their_headers() {
    let mut u = XlsbUpdater::open(sample_workbook()).unwrap();
    u.replace_sheet_data(
        "data1",
        vec![
            vec![text("new"), CellValue::Integer(5)],
            vec![CellValue::Empty, CellValue::Boolean(false)],
            vec![CellValue::Empty],
        ],
        Some(ReplaceSheetDataOptions {
            headers: Some(words(&["A", "B"])),
            style_fallback: StyleFallback::General,
        }),
        &NumberTable::new(),
    )
    .unwrap();
    assert_eq!(
        read_sheet(u.store(), "data1"),
        vec![
            vec![text("A"), text("B")],
            vec![text("new"), CellValue::Number(double(5.0))],
            vec![CellValue::Empty, CellValue::Boolean(false)],
        ]
    );
}

#[test]
fn cells_are_read_one_by_one() {
    let mut w = XlsbWriter::new(templates());
    w.add_sheet("S", false);
    w.write_sheet(
        &vec![vec![text("a"), CellValue::Empty], vec![CellValue::Empty, CellValue::Boolean(true)]],
        None,
        false,
        &NumberTable::new(),
    )
    .unwrap();
    let zip = package(&w.finalize().unwrap().0);
    let reader = open_reader(&zip);
    let bytes = zip.entry_data(&reader.cell_path("S").unwrap()).unwrap();
    let mut cells = reader.cell_reader(bytes);
    let cell = cells.next_cell().unwrap().unwrap();
    assert_eq!((cell.row, cell.column, cell.value), (0, 0, CellValueRef::Text("a")));
    let cell = cells.next_cell().unwrap().unwrap();
    assert_eq!((cell.row, cell.column, cell.value), (1, 1, CellValueRef::Boolean(true)));
    assert!(cells.next_cell().unwrap().is_none());
    assert!(matches!(reader.cell_path("T"), Err(SpreadsheetError::SheetNotFound(_))));
}

#[test]
fn written_shared_strings_read_back() {
    let mut w = XlsbWriter::new(templates());
    w.add_sheet("S", false);
    let long = "długi tekst ".repeat(20);
    w.write_sheet(
        &vec![vec![text("a")], vec![text(&long)], vec![text("a")]],
        None,
        false,
        &NumberTable::new(),
    )
    .unwrap();
    let zip = package(&w.finalize().unwrap().0);
    let rows = read_sheet(&zip, "S");
    assert_eq!(rows, vec![vec![text("a")], vec![text(&long)], vec![text("a")]]);
    let parsed =
        parse_shared_strings_bin(zip.entry_data("xl/sharedStrings.bin").unwrap()).unwrap();
    assert_eq!(parsed.values.len(), 2);
}

fn sample_workbook() -> ZipStore {
    let mut w = XlsbWriter::new(templates());
    w.add_sheet("data1", false);
    let rows = vec![
        vec![text("Alice"), CellValue::Integer(30)],
        vec![text("Bob"), CellValue::Integer(25)],
    ];
    w.write_sheet(&rows, Some(&words(&["NAME", "AGE"])), true, &NumberTable::new()).unwrap();
    w.add_sheet("other", false);
    w.write_sheet(&vec![vec![text("keep")]], Some(&words(&["COL"])), false, &NumberTable::new())
        .unwrap();
    package(&w.finalize().unwrap().0)
}

fn date_workbook(date: DateTimeParts) -> ZipStore {
    let mut w = XlsbWriter::new(templates());
    w.add_sheet("data1", false);
    let rows = vec![vec![CellValue::DateTime(double(serial_of(date, false)))]];
    w.write_sheet(&rows, Some(&words(&["DATE"])), false, &numbers_of(&rows)).unwrap();
    package(&w.finalize().unwrap().0)
}

/// Replaces the rows of a sheet row by row. The sheet is kept under a file name.
fn stream_rows(
    updater: &mut XlsbUpdater,
    sheet: &str,
    rows: &[Result<Vec<CellValue>, &str>],
    file: &str,
) -> Result<(), SpreadsheetError> {
    let mut stream = updater.begin_stream(sheet, None)?;
    let mut body = stream.header_row().to_vec();
    let mut starts = Vec::new();
    if !body.is_empty() {
        starts.push(0);
    }
    let mut kept = (body.len(), starts.len());
    for row in rows {
        let row = match row {
            Ok(row) => row,
            Err(reason) => {
                updater.abort_stream(stream, file);
                return Err(SpreadsheetError::Other(reason.to_string()));
            }
        };
        assert!(stream.has_room());
        let numbers = numbers_of(std::slice::from_ref(row));
        let fragment = updater.push_row(&mut stream, row, &numbers);
        starts.push(body.len());
        body.extend(&fragment.bytes);
        if fragment.stays {
            kept = (body.len(), starts.len());
        }
    }
    body.truncate(kept.0);
    starts.truncate(kept.1);
    let plan = stream.plan(body.len() as u64)?;
    for start in starts {
        body[start + 23..start + 27].copy_from_slice(&plan.last_col.to_le_bytes());
    }
    let old = stream.old_sheet();
    let mut whole = [&old[..plan.rows_start], &body[..], &old[plan.rows_end..]].concat();
    for overwrite in &plan.overwrites {
        let at = overwrite.offset as usize;
        whole[at..at + 4].copy_from_slice(&overwrite.value.to_le_bytes());
    }
    let sheet_part = updater.sheet_path(sheet)?.to_owned();
    updater.complete_stream(stream, file)?;
    updater.load_staged(&sheet_part, whole);
    Ok(())
}

#[test]
fn xlsb_updater_replace_preserves_other_sheets() {
    let mut u = XlsbUpdater::open(sample_workbook()).unwrap();
    assert!(u.sheet_names().contains(&"data1".to_string()));
    u.replace_sheet_data(
        "data1",
        vec![vec![text("Zed"), CellValue::Integer(99)]],
        Some(ReplaceSheetDataOptions {
            headers: Some(words(&["NAME", "AGE"])),
            style_fallback: StyleFallback::General,
        }),
        &NumberTable::new(),
    )
    .unwrap();
    let zip = u.store();

    let mut r = open_reader(zip);
    assert!(read(&mut r, zip));
    assert_eq!(r.get_value(0), text("NAME"));
    assert!(read(&mut r, zip));
    assert_eq!(r.get_value(0), text("Zed"));
    assert_eq!(r.get_value(1), CellValue::Number(double(99.0)));
    assert_eq!(
        zip.entry_data("xl/worksheets/sheet2.bin").unwrap(),
        sample_workbook().entry_data("xl/worksheets/sheet2.bin").unwrap()
    );
}

#[test]
fn xlsb_updater_stream_replace_then_save_streaming() {
    let mut u = XlsbUpdater::open(sample_workbook()).unwrap();
    let rows = [Ok(vec![CellValue::Integer(1)]), Ok(vec![CellValue::Empty])];
    stream_rows(&mut u, "data1", &rows, "rows.tmp").unwrap();
    assert_eq!(u.materialize_staged().unwrap(), vec!["rows.tmp".to_string()]);
    let zip = u.store();
    let mut r = open_reader(zip);
    let mut non_empty = 0;
    loop {
        if !read(&mut r, zip) {
            break;
        }
        if !r.current_row().is_empty() {
            non_empty += 1;
        }
        if non_empty > 10 {
            break;
        }
    }
    // 1 data row (no headers passed; trailing empties trimmed by truncation)
    assert_eq!(non_empty, 1);
}

#[test]
fn xlsb_updater_streamed_sheet_is_the_sheet_written_at_once() {
    let rows = vec![vec![text("a")], vec![CellValue::Integer(2), text("b")], vec![CellValue::Empty]];
    let mut at_once = XlsbUpdater::open(sample_workbook()).unwrap();
    at_once.replace_sheet_data("data1", rows.clone(), None, &NumberTable::new()).unwrap();
    let mut streamed = XlsbUpdater::open(sample_workbook()).unwrap();
    let rows: Vec<Result<Vec<CellValue>, &str>> = rows.into_iter().map(Ok).collect();
    stream_rows(&mut streamed, "data1", &rows, "rows.tmp").unwrap();
    streamed.materialize_staged().unwrap();
    for name in at_once.store().entry_names() {
        assert_eq!(
            at_once.store().entry_data(&name).unwrap(),
            streamed.store().entry_data(&name).unwrap()
        );
    }
}

#[test]
fn xlsb_updater_missing_sheet_errors() {
    let mut u = XlsbUpdater::open(sample_workbook()).unwrap();
    assert!(u.replace_sheet_data("nope", vec![], None, &NumberTable::new()).is_err());
}

#[test]
fn xlsb_updater_updater_writes_1904_date_serials() {
    let expected = moment();
    let mut zip = date_workbook(expected);
    let mut workbook = zip.entry_data("xl/workbook.bin").unwrap().to_vec();
    let mut rec = Biff12Record::default();
    let mut pos = 0;
    let mut found = false;
    while read_record(&workbook, pos, &mut rec).unwrap() {
        if rec.id == 0x0099 && rec.len >= 4 {
            workbook[rec.data_start] |= 1;
            found = true;
            break;
        }
        pos = rec.data_end;
    }
    assert!(found, "generated workbook has no BrtBeginBook record");
    zip.update_file("xl/workbook.bin", workbook);

    let mut updater = XlsbUpdater::open(zip).unwrap();
    assert!(updater.counts_from_1904());
    let expected_serial = serial_of(expected, updater.counts_from_1904());
    let rows = vec![vec![CellValue::DateTime(double(expected_serial))]];
    let numbers = numbers_of(&rows);
    updater
        .replace_sheet_data(
            "data1",
            rows,
            Some(ReplaceSheetDataOptions {
                headers: None,
                style_fallback: StyleFallback::Inherit,
            }),
            &numbers,
        )
        .unwrap();

    let zip = updater.store();
    let sheet = zip.entry_data("xl/worksheets/sheet1.bin").unwrap();
    let mut pos = 0;
    let mut found = false;
    while read_record(sheet, pos, &mut rec).unwrap() {
        if rec.id == 0x0005 && rec.len >= 16 {
            let serial = f64::from_le_bytes(
                sheet[rec.data_start + 8..rec.data_start + 16]
                    .try_into()
                    .unwrap(),
            );
            if (serial - expected_serial).abs() < 1e-9 {
                found = true;
                break;
            }
        }
        pos = rec.data_end;
    }
    assert!(
        found,
        "updated sheet did not contain serial {expected_serial}"
    );

    let mut reader = open_reader(zip);
    assert!(reader.uses_1904_date_system);
    assert!(read(&mut reader, zip));
    assert_eq!(date_of(&reader.get_value(0), true), expected);
}

#[test]
fn xlsb_updater_rolls_back_an_aborted_stream() {
    let mut u = XlsbUpdater::open(sample_workbook()).unwrap();
    let rows = [Ok(vec![text("valid")]), Err("generator failed")];
    assert!(stream_rows(&mut u, "data1", &rows, "first.tmp").is_err());
    let before = sample_workbook();
    for name in before.entry_names() {
        assert_eq!(u.store().entry_data(&name).unwrap(), before.entry_data(&name).unwrap());
    }
}

#[test]
fn sheets_are_cut_at_their_rows() {
    let zip = sample_workbook();
    let sheet = zip.entry_data("xl/worksheets/sheet1.bin").unwrap();
    assert_eq!(shared_string_ref_count(sheet).unwrap(), 4);
    let region = find_rows_region(sheet).unwrap();
    let emptied = patch_sheet(sheet, &[], 0, 0).unwrap();
    assert_eq!(emptied.len(), sheet.len() - (region.rows_end - region.rows_start));
    let styles = collect_styles(sheet).unwrap();
    assert_eq!(styles.data_style_of(1), 0);
    assert_eq!(styles.header_style_of(0), 3);
    assert_eq!(find_date_xf(zip.entry_data("xl/styles.bin").unwrap()).unwrap(), Some(1));
    assert!(find_rows_region(&[0x13, 0x04]).is_err());
}

#[test]
fn shared_string_parts_grow() {
    let mut part = build_record(0x9f, &[0; 8]);
    let mut item = Vec::new();
    push_string_item(&mut item, "ab");
    assert_eq!(item, vec![0x13, 9, 0, 2, 0, 0, 0, 0x61, 0, 0x62, 0]);
    part.extend(&item);
    part.extend(build_record(0xa0, &[]));
    set_counts(&mut part, 3, 1).unwrap();
    let parsed = parse_shared_strings_bin(&part).unwrap();
    assert_eq!(parsed.values, vec!["ab".to_string()]);
    assert!(set_counts(&mut vec![0x13, 0x04], 0, 0).is_err());
}

#[test]
fn pivot_caches_of_other_sheets_stay() {
    assert!(update_pivot_cache(&build_record(0x1b3, &[0; 8]), "Data", 3, 1).unwrap().is_none());
    assert!(update_pivot_cache(&[0x13, 0x04], "Data", 3, 1).is_err());
}

#[test]
fn new_shared_strings_are_read_behind_the_old_ones() {
    let mut part = build_record(0x9f, &[0; 8]);
    push_string_item(&mut part, "ab");
    part.extend(build_record(0xa0, &[]));
    part.extend(build_record(0x1234, &[1, 2, 3]));
    let end = parse_shared_strings_bin(&part).unwrap().end_sst_offset;
    let mut items = Vec::new();
    push_string_item(&mut items, "zażółć");
    push_string_item(&mut items, "");
    part.splice(end..end, items.iter().copied());
    set_counts(&mut part, 9, 3).unwrap();
    let parsed = parse_shared_strings_bin(&part).unwrap();
    assert_eq!(parsed.values, words(&["ab", "zażółć", ""]));
    assert_eq!((parsed.total, parsed.unique), (9, 3));
    assert_eq!(parsed.end_sst_offset, end + items.len());
}

#[test]
fn sheet_names_of_any_length_in_code_units_read_back() {
    let name = "\u{1F600}".repeat(31);
    let mut w = XlsbWriter::new(templates());
    w.add_sheet(&name, false);
    w.write_sheet(&vec![vec![text("x")]], None, false, &NumberTable::new()).unwrap();
    let zip = package(&w.finalize().unwrap().0);
    assert_eq!(open_reader(&zip).sheet_names(), vec![name.clone()]);
    assert_eq!(read_sheet(&zip, &name), vec![vec![text("x")]]);
}

#[test]
fn filters_are_taken_to_move_with_what_stands_behind_the_rows() {
    let filter = build_record(0xa1, &[7; 16]);
    let row = build_record(0, &[1; 17]);
    let cell = build_record(1, &[2; 8]);
    let end = build_record(0x92, &[]);
    let rows = [&row[..], &cell, &row, &cell].concat();
    for behind in [true, false] {
        let order = if behind { [&row, &cell, &filter, &end] } else { [&filter, &row, &cell, &end] };
        let sheet = order.map(|record| record.as_slice()).concat();
        let new = patch_sheet(&sheet, &rows, 3, 4).unwrap();
        let mut expected = if behind {
            [&rows[..], &filter, &end].concat()
        } else {
            [&filter[..], &rows, &end].concat()
        };
        let moved = if behind { rows.len() + 3 } else { 3 + rows.len() - row.len() - cell.len() };
        expected[moved + 4..moved + 8].copy_from_slice(&3u32.to_le_bytes());
        expected[moved + 12..moved + 16].copy_from_slice(&4u32.to_le_bytes());
        assert_eq!(new, expected);
    }
}

#[test]
fn shared_strings_parse_whatever_their_counts() {
    let mut part = build_record(0x9f, &[[9u8, 0, 0, 0], [4, 0, 0, 0]].concat());
    push_string_item(&mut part, "a");
    push_string_item(&mut part, "b");
    part.extend(build_record(0xa0, &[]));
    let parsed = parse_shared_strings_bin(&part).unwrap();
    assert_eq!(parsed.values, vec!["a", "b"]);
    assert_eq!((parsed.total, parsed.unique), (9, 4));
}

#[test]
fn xlsb_updates_after_a_failed_stream_are_as_if_it_had_not_been() {
    let failing = [Ok(vec![text("new"), text("Alice")]), Err("no more")];
    let rows = vec![vec![text("Zed"), text("new")]];
    let mut plain = XlsbUpdater::open(sample_workbook()).unwrap();
    let mut u = XlsbUpdater::open(sample_workbook()).unwrap();
    assert!(stream_rows(&mut u, "data1", &failing, "rows.tmp").is_err());
    for replace in [false, true] {
        if replace {
            u.replace_sheet_data("data1", rows.clone(), None, &NumberTable::new()).unwrap();
            plain.replace_sheet_data("data1", rows.clone(), None, &NumberTable::new()).unwrap();
        }
        assert_eq!(u.store().entry_names(), plain.store().entry_names());
        for name in plain.store().entry_names() {
            assert_eq!(u.store().entry_data(&name).unwrap(), plain.store().entry_data(&name).unwrap());
        }
    }
}
