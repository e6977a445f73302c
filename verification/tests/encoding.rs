//! Records, buffers, cell values, names, columns and dates.

use spreadsheet::atomic_file::{InstallEvent, InstallPhase, Installation};
use spreadsheet::biff_reader::{decode_rk, BiffCellType, BiffReaderWriter};
use spreadsheet::datetime::{from_oa_milliseconds, to_oa_milliseconds, DateTimeParts};
use spreadsheet::formats::is_date_format_code;
use spreadsheet::number::{as_packed_integer, double_bits, finite, Number, NumberImage, NumberTable};
use spreadsheet::reader_factory::detect_kind;
use spreadsheet::relationships::{parse_relationships, resolve_part};
use spreadsheet::text::{chars_of, lower_chars, string_of};
use spreadsheet::utf16::{decode_utf16le, utf16_units};
use spreadsheet::writer_helpers::{free_sheet_name, unique_sheet_name};
use spreadsheet::xml_events::{decode_attribute, decode_xml_reference, XmlEvent, XmlKind};
use spreadsheet::xlsx_parts;
use spreadsheet::xlsb_xml;
use spreadsheet::xlsx_scan::{parse_cell_attributes, parse_cell_reference, XlsxCellType};
use spreadsheet::{
    apply_header_widths, build_record, column_index_to_letter, column_letter_to_index,
    create_reader, default_col_width, escape_xml_text, get_format, init_col_widths,
    install_temporary_output, is_formatted_cell, oa_epoch_naive, read_record, read_utf16, read_vlq,
    sanitize_sheet_name, trim_trailing_empty_rows, try_column_letter_to_index, try_read_utf16,
    unescape_xml, unwrap_cell, update_col_widths_from_rows, uses_1904_date_system_bin, vlq_bytes,
    vlq_length, AtomicFileOperations, BigBuffer, Biff12Record, CellValue, CellValueRef, ReaderKind,
    SpreadsheetError, SpreadsheetReader, StreamingSheetState, EXCEL_1904_DATE_OFFSET_DAYS, F,
};
use std::cell::{Cell, RefCell};
use std::collections::HashMap;
use std::path::Path;

fn double(value: f64) -> Number {
    Number::Double(value.to_bits())
}

#[test]
fn vlq_roundtrip() {
    for v in [0u32, 1, 127, 128, 300, 16383, 1 << 21] {
        let enc = vlq_bytes(v);
        assert_eq!(enc.len(), vlq_length(v));
        let (dec, next) = read_vlq(&enc, 0).unwrap();
        assert_eq!(dec, v);
        assert_eq!(next, enc.len());
    }
}

#[test]
fn vlq_of_300_takes_two_bytes() {
    assert_eq!(vlq_bytes(300), vec![0xac, 0x02]);
    assert_eq!(vlq_length(u32::MAX), 5);
    let fault = read_vlq(&[0x80], 0).unwrap_err();
    assert!(matches!(fault, SpreadsheetError::InvalidFormat(_)));
}

#[test]
fn record_build_and_read() {
    let payload = vec![1u8, 2, 3];
    let rec_bytes = build_record(0x13, &payload);
    let mut rec = Biff12Record::default();
    assert!(read_record(&rec_bytes, 0, &mut rec).unwrap());
    assert_eq!(rec.id, 0x13);
    assert_eq!(rec.len, 3);
    assert_eq!(&rec_bytes[rec.data_start..rec.data_end], &payload[..]);
}

#[test]
fn records_end_with_the_bytes() {
    let bytes = build_record(0x113, &[7]);
    let mut rec = Biff12Record::default();
    assert!(read_record(&bytes, 0, &mut rec).unwrap());
    assert_eq!(rec.id, 0x113);
    assert!(!read_record(&bytes, rec.data_end, &mut rec).unwrap());
}

#[test]
fn reads_1904_workbook_flag() {
    let mut payload = vec![0u8; 4];
    payload[0] = 1;
    assert!(uses_1904_date_system_bin(&build_record(0x0099, &payload)).unwrap());
    assert!(!uses_1904_date_system_bin(&build_record(0x0099, &[0, 0, 0, 0])).unwrap());
}

#[test]
fn truncated_record_is_not_treated_as_eof() {
    let mut rec = Biff12Record::default();
    let error = read_record(&[0x13, 0x04, 0x01], 0, &mut rec).unwrap_err();
    assert!(matches!(error, SpreadsheetError::InvalidFormat(_)));
}

#[test]
fn overflowing_vlq_is_rejected() {
    let error = read_vlq(&[0xff, 0xff, 0xff, 0xff, 0x10], 0).unwrap_err();
    assert!(matches!(error, SpreadsheetError::InvalidFormat(_)));
}

#[test]
fn utf16_is_read_within_bounds() {
    let bytes = [0x41, 0x00, 0x3d, 0xd8, 0x00, 0xde];
    assert_eq!(try_read_utf16(&bytes, 0, 3).unwrap(), "A😀");
    assert!(try_read_utf16(&bytes, 0, 4).is_err());
    assert_eq!(read_utf16(&bytes, 0, 1), "A");
    assert_eq!(decode_utf16le(&[0x3d, 0xd8]), "\u{fffd}");
    assert_eq!(utf16_units(&['A', '😀']), vec![0x41, 0xd83d, 0xde00]);
}

#[test]
fn rk_integer_decodes() {
    // The packed integer of 42 is (42 << 2) | 2 = 170.
    let mut payload = vec![0u8; 12];
    payload[0..4].copy_from_slice(&0u32.to_le_bytes()); // col
    payload[4..8].copy_from_slice(&0u32.to_le_bytes()); // xf
    payload[8..12].copy_from_slice(&170i32.to_le_bytes());
    let buf = build_record(0x02, &payload);
    let mut r = BiffReaderWriter::new(&buf);
    assert!(r.read_worksheet().unwrap());
    assert!(r.read_cell);
    assert_eq!(r.cell_type, 3);
    assert_eq!(r.double_val, double(42.0));
}

#[test]
fn packed_numbers_come_in_four_kinds() {
    assert_eq!(decode_rk(170), double(42.0));
    assert_eq!(decode_rk(((-42i32) << 2) as u32 | 2), double(-42.0));
    assert_eq!(decode_rk(171), Number::Hundredths(42f64.to_bits()));
    let high = (1.5f64.to_bits() >> 32) as u32;
    assert_eq!(decode_rk(high), double(1.5));
    assert_eq!(decode_rk(high | 1), Number::Hundredths(1.5f64.to_bits()));
}

#[test]
fn row_and_sst_item() {
    let mut row_payload = vec![0u8; 25];
    row_payload[0..4].copy_from_slice(&7i32.to_le_bytes());
    let mut buf = build_record(0x00, &row_payload);
    let mut sst_payload = vec![0u8; 12];
    sst_payload[0..4].copy_from_slice(&3u32.to_le_bytes());
    sst_payload[4..8].copy_from_slice(&0u32.to_le_bytes());
    sst_payload[8..12].copy_from_slice(&9u32.to_le_bytes());
    buf.extend(build_record(0x07, &sst_payload));
    let mut r = BiffReaderWriter::new(&buf);
    assert!(r.read_worksheet().unwrap());
    assert_eq!(r.row_index, 7);
    assert!(r.read_worksheet().unwrap());
    assert_eq!(r.cell_type, 2);
    assert_eq!(r.int_value, 9);
    assert_eq!(r.column_num, 3);
}

#[test]
fn truncated_cell_record_returns_error() {
    let record = build_record(0x05, &[0; 4]);
    let mut r = BiffReaderWriter::new(&record);
    let error = r.read_worksheet().unwrap_err();
    assert!(matches!(error, SpreadsheetError::InvalidFormat(_)));
}

#[test]
fn cell_kinds_have_codes() {
    assert_eq!(BiffCellType::Number.code(), 3);
    assert_eq!(BiffCellType::SharedString.code(), 2);
}

#[test]
fn chunking_and_utf16() {
    let mut b = BigBuffer::new(8);
    b.write(b"hello world, this is long");
    b.write_str("!");
    b.write_utf16le("AB");
    b.write_i32_le(-5);
    b.write_f64_le(1.5f64.to_bits());
    let chunks = b.chunks_drain();
    let flat: Vec<u8> = chunks.concat();
    assert!(flat.windows(5).any(|w| w == b"hello"));
    // "AB" as UTF-16LE
    assert!(flat.windows(4).any(|w| w == [0x41, 0x00, 0x42, 0x00]));
    let mut utf16 = BigBuffer::new(4);
    utf16.write_utf16le("A😀B");
    let expected: Vec<u8> = "A😀B".encode_utf16().flat_map(u16::to_le_bytes).collect();
    assert_eq!(utf16.chunks_drain().concat(), expected);
    b.reset();
    assert!(b.chunks_drain().is_empty());
}

#[test]
fn tiny_chunks_do_not_panic_on_fixed_width_writes() {
    let mut b = BigBuffer::new(0);
    b.write_i32_le(42);
    b.write_f64_le(1.5f64.to_bits());
    assert_eq!(b.chunks_drain().concat().len(), 12);
}

#[test]
fn chunks_hold_what_was_written() {
    let mut b = BigBuffer::new(4);
    b.write_u32_le(0x0403_0201);
    b.write_byte(5);
    b.write_f64_le(0);
    assert_eq!(b.chunks_drain().concat(), vec![1, 2, 3, 4, 5, 0, 0, 0, 0, 0, 0, 0, 0]);
}

#[test]
fn formatted_helpers_roundtrip() {
    let v = CellValue::formatted(CellValue::Number(double(1.5)), F::TWO_DECIMALS.to_owned());
    assert!(is_formatted_cell(&v));
    assert_eq!(get_format(&v), Some("#,##0.00"));
    assert_eq!(unwrap_cell(&v), CellValue::Number(double(1.5)));
    assert!(!is_formatted_cell(&CellValue::Text("x".into())));
    assert_eq!(get_format(&CellValue::Integer(3)), None);
}

#[test]
fn a_second_format_replaces_the_first() {
    let once = CellValue::formatted(CellValue::Integer(7), "0".to_owned());
    let twice = CellValue::formatted(once, "0.00".to_owned());
    assert_eq!(get_format(&twice), Some("0.00"));
    assert_eq!(unwrap_cell(&twice), CellValue::Integer(7));
}

#[test]
fn values_convert_into_cells() {
    assert_eq!(CellValue::from("a"), CellValue::Text("a".into()));
    assert_eq!(CellValue::from(String::from("b")), CellValue::Text("b".into()));
    assert_eq!(CellValue::from(5i64), CellValue::Integer(5));
    assert_eq!(CellValue::from(-5i32), CellValue::Integer(-5));
    assert_eq!(CellValue::from(true), CellValue::Boolean(true));
    assert_eq!(CellValue::empty(), CellValue::Empty);
    assert_eq!(CellValueRef::Text("c").to_owned(), CellValue::Text("c".into()));
}

#[test]
fn date_format_detection_ignores_literals() {
    assert!(is_date_format_code("yyyy-mm-dd hh:mm"));
    assert!(is_date_format_code("[h]:mm:ss"));
    assert!(!is_date_format_code("0.00 \"mm\""));
    assert!(!is_date_format_code("0\\m"));
}

#[test]
fn number_tables_fall_back_to_zero() {
    let mut table = NumberTable::new();
    assert_eq!(table.bits_of(Number::Hundredths(1)), 0);
    assert_eq!(table.bits_of(double(2.5)), 2.5f64.to_bits());
    assert_eq!(table.shortest_text(double(2.5)), "0.0");
    assert_eq!(table.display_text(double(2.5)), "0");
    table.record(
        double(2.5),
        NumberImage { bits: 2.5f64.to_bits(), shortest: "2.5".into(), display: "2.5".into() },
    );
    assert_eq!(table.shortest_text(double(2.5)), "2.5");
}

#[test]
fn integers_become_doubles_and_back() {
    for n in [0i64, 1, -1, 3, 1 << 29, -(1 << 29), 536_870_911] {
        assert_eq!(double_bits(n), (n as f64).to_bits());
        let packed = if n < 1 << 29 && n >= -(1 << 29) { Some(n as i32) } else { None };
        assert_eq!(as_packed_integer((n as f64).to_bits()), packed);
    }
    assert_eq!(as_packed_integer(1.5f64.to_bits()), None);
    assert!(finite(1.5f64.to_bits()));
    assert!(!finite(f64::INFINITY.to_bits()));
    assert!(!finite(f64::NAN.to_bits()));
}

fn serial_of(dt: DateTimeParts, uses_1904_date_system: bool) -> f64 {
    let oa = to_oa_milliseconds(dt).unwrap() as f64 / 86_400_000.0;
    if uses_1904_date_system {
        oa - EXCEL_1904_DATE_OFFSET_DAYS as f64
    } else {
        oa
    }
}

fn from_serial(serial: f64, uses_1904_date_system: bool) -> DateTimeParts {
    let oa = if uses_1904_date_system {
        serial + EXCEL_1904_DATE_OFFSET_DAYS as f64
    } else {
        serial
    };
    from_oa_milliseconds((oa * 86_400_000.0) as i64).unwrap()
}

fn moment(year: i32, month: u32, day: u32, hour: u32, minute: u32, second: u32) -> DateTimeParts {
    DateTimeParts { year, month, day, hour, minute, second, nanosecond: 0 }
}

#[test]
fn excel_1904_serials_round_trip() {
    let dt = moment(2025, 2, 3, 12, 30, 0);
    let serial_1900 = serial_of(dt, false);
    let serial_1904 = serial_of(dt, true);
    assert!((serial_1900 - serial_1904 - EXCEL_1904_DATE_OFFSET_DAYS as f64).abs() < 1e-9);
    assert_eq!(from_serial(serial_1900, false), dt);
    assert_eq!(from_serial(serial_1904, true), dt);
}

#[test]
fn milliseconds_count_from_the_epoch() {
    assert_eq!(oa_epoch_naive(), moment(1899, 12, 30, 0, 0, 0));
    assert_eq!(to_oa_milliseconds(moment(1900, 1, 1, 0, 0, 1)), Some(2 * 86_400_000 + 1000));
    assert_eq!(to_oa_milliseconds(moment(1899, 12, 29, 0, 0, 0)), Some(-86_400_000));
    assert_eq!(to_oa_milliseconds(moment(2023, 2, 29, 0, 0, 0)), None);
    assert_eq!(from_oa_milliseconds(1462 * 86_400_000), Some(moment(1904, 1, 1, 0, 0, 0)));
    assert_eq!(from_oa_milliseconds(i64::MAX), None);
}

#[test]
fn detects_by_extension() {
    let kind = |name: &str| detect_kind(Path::new(name).extension().and_then(|e| e.to_str()));
    assert_eq!(kind("a.xlsx").unwrap(), ReaderKind::Xlsx);
    assert_eq!(kind("a.XLSB").unwrap(), ReaderKind::Xlsb);
    assert!(kind("a.csv").is_err());
}

#[test]
fn readers_are_made_by_extension() {
    assert!(matches!(create_reader(Some("xlsx")), Ok(SpreadsheetReader::Xlsx(_))));
    assert!(matches!(create_reader(Some("XLSB")), Ok(SpreadsheetReader::Xlsb(_))));
    let message = match create_reader(Some("csv")) {
        Err(SpreadsheetError::UnsupportedExtension(ext)) => ext,
        _ => panic!("expected a refusal"),
    };
    assert_eq!(message, ".csv");
    let message = match create_reader(None) {
        Err(error) => error.message(),
        Ok(_) => panic!("expected a refusal"),
    };
    assert_eq!(message, "unsupported extension: .");
}

#[test]
fn begin_end_cycle() {
    let mut s = StreamingSheetState::new();
    assert!(s.assert_streaming().is_err());
    s.try_begin(3, true, BigBuffer::default()).unwrap();
    assert!(s.try_begin(3, true, BigBuffer::default()).is_err());
    assert_eq!(s.col_widths.len(), 3);
    s.end();
    assert!(!s.is_streaming);
}

#[test]
fn streaming_faults_name_the_state() {
    let mut s = StreamingSheetState::new();
    assert!(matches!(s.assert_streaming(), Err(SpreadsheetError::NotStreaming)));
    s.begin(2, false, BigBuffer::default());
    assert!(s.assert_streaming().is_ok());
    assert!(matches!(
        s.try_begin(2, false, BigBuffer::default()),
        Err(SpreadsheetError::AlreadyStreaming)
    ));
}

#[test]
fn sanitize_rules() {
    assert_eq!(sanitize_sheet_name("", 0), "Sheet1");
    assert_eq!(sanitize_sheet_name("a/b:c", 0), "a_b_c");
    assert_eq!(sanitize_sheet_name("   ", 2), "Sheet3");
    let long = "x".repeat(40);
    assert_eq!(sanitize_sheet_name(&long, 0).len(), 31);
}

#[test]
fn unique_names_are_case_insensitive_and_fit_limit() {
    let existing = ["Data".to_string(), "Data (2)".to_string()];
    let name = unique_sheet_name("data", 2, |candidate: &str| {
        existing
            .iter()
            .any(|value| value.eq_ignore_ascii_case(candidate))
    });
    assert_eq!(name, "data (3)");

    let existing = ["x".repeat(31)];
    let name = unique_sheet_name(&existing[0], 1, |candidate: &str| candidate == existing[0]);
    assert_eq!(name.chars().count(), 31);
    assert!(name.ends_with(" (2)"));
}

#[test]
fn free_names_avoid_taken_ones() {
    let taken = vec![chars_of("Data"), chars_of("data (2)")];
    assert_eq!(free_sheet_name("DATA", &taken), "DATA (3)");
    assert_eq!(free_sheet_name("Other", &taken), "Other");
}

#[test]
fn widths_autofit() {
    let mut w = init_col_widths(2);
    apply_header_widths(&mut w, &["ID".to_string(), "Name".to_string()], 2);
    assert!(w[0] > 0 && w[1] > w[0]);
    // In hundredths of a character.
    assert_eq!(default_col_width(-100, true), 1000);
    assert_eq!(default_col_width(1290, true), 1200);
    assert_eq!(default_col_width(1290, false), 1290);
}

#[test]
fn widths_follow_the_longest_sampled_value() {
    let mut w = init_col_widths(1);
    apply_header_widths(&mut w, &["ID".to_string()], 1);
    assert_eq!(w, vec![125 * 3 + 200]);
    let rows = vec![vec![CellValue::Text("abcdef".into())], vec![CellValue::Text("x".repeat(50))]];
    update_col_widths_from_rows(&mut w, &rows, 1, &NumberTable::new());
    assert_eq!(w, vec![125 * 7 + 200]);
}

#[test]
fn rels_parsing_order_independent() {
    let xml = r#"<Relationships><Relationship Target="worksheets/sheet1.bin" Id="rId1" Type="x"/></Relationships>"#;
    let m = parse_relationships(xml);
    assert_eq!(m.get("rId1").unwrap(), "worksheets/sheet1.bin");
}

#[test]
fn targets_lead_to_parts() {
    assert_eq!(resolve_part("worksheets/sheet1.xml"), "xl/worksheets/sheet1.xml");
    assert_eq!(resolve_part("/xl/worksheets/sheet1.xml"), "xl/worksheets/sheet1.xml");
}

#[test]
fn columns_roundtrip() {
    assert_eq!(column_index_to_letter(0), "A");
    assert_eq!(column_index_to_letter(25), "Z");
    assert_eq!(column_index_to_letter(26), "AA");
    assert_eq!(column_index_to_letter(27), "AB");
    assert_eq!(column_letter_to_index("A"), 0);
    assert_eq!(column_letter_to_index("AA"), 26);
    assert_eq!(column_letter_to_index("AB"), 27);
    assert_eq!(try_column_letter_to_index(""), None);
    assert_eq!(try_column_letter_to_index("a"), None);
    assert_eq!(try_column_letter_to_index(&"A".repeat(128)), None);
}

#[test]
fn columns_lead_back_to_themselves() {
    for index in [0usize, 1, 25, 26, 701, 702, 16_383, 1_000_000] {
        assert_eq!(try_column_letter_to_index(&column_index_to_letter(index)), Some(index));
    }
}

#[test]
fn escape_unescape() {
    assert_eq!(escape_xml_text("a&b<c"), "a&amp;b&lt;c");
    assert_eq!(unescape_xml("a&amp;b&lt;c&#x41;&#66;"), "a&b<cAB");
    assert_eq!(escape_xml_text("plain"), "plain");
}

#[test]
fn escaped_text_reads_back() {
    for text in ["", "a & b", "<x y=\"1\">", "it's &amp; so", "żółć 😀"] {
        assert_eq!(unescape_xml(&escape_xml_text(text)), text);
    }
    assert_eq!(escape_xml_text("a\u{1}b"), "ab");
    assert_eq!(unescape_xml("&unknown; &"), "&unknown; &");
    assert_eq!(unescape_xml("&amp;lt;"), "&lt;");
    assert_eq!(unescape_xml("&#38;lt;&#x26;amp;"), "&lt;&amp;");
    assert_eq!(unescape_xml("&lt;&gt;&quot;&apos;&amp;&amp"), "<>\"'&&amp");
    assert_eq!(unescape_xml(&escape_xml_text("&lt;&#65;")), "&lt;&#65;");
}

#[test]
fn trailing_rows_without_values_go() {
    let rows = vec![vec![1, 0], vec![0], vec![2], vec![0, 0], vec![]];
    let kept = trim_trailing_empty_rows(rows, |n: &i32| *n == 0);
    assert_eq!(kept, vec![vec![1, 0], vec![0], vec![2]]);
}

#[test]
fn references_and_attributes_are_decoded() {
    assert_eq!(decode_xml_reference(b"amp"), "&");
    assert_eq!(decode_xml_reference(b"#65"), "A");
    assert_eq!(decode_attribute(b"A&amp;B"), "A&B");
}

#[test]
fn texts_are_lowered() {
    assert_eq!(string_of(&lower_chars(&chars_of("ŻÓŁĆ ABC"))), "żółć abc");
}

#[test]
fn cell_attrs_parse() {
    let element = XmlEvent {
        kind: XmlKind::Empty,
        content: b"c r=\"B2\" t=\"s\" s=\"3\"".to_vec(),
        attributes: vec![
            Some((b"r".to_vec(), b"B2".to_vec())),
            Some((b"t".to_vec(), b"s".to_vec())),
            Some((b"s".to_vec(), b"3".to_vec())),
        ],
    };
    let (col, t, s) = parse_cell_attributes(&element);
    assert_eq!(col, Some(1));
    assert_eq!(t, XlsxCellType::SharedString);
    assert_eq!(s, 3);
}

#[test]
fn cell_references_have_a_column_and_a_row() {
    assert_eq!(parse_cell_reference(b"B2"), Some((1, 1)));
    assert_eq!(parse_cell_reference(b"AA10"), Some((9, 26)));
    assert_eq!(parse_cell_reference(b"10"), None);
    assert_eq!(parse_cell_reference(b"A"), None);
}

struct MemOps {
    files: RefCell<HashMap<String, Vec<u8>>>,
    fail_first_rename: Cell<bool>,
}

impl AtomicFileOperations for MemOps {
    fn is_present(&mut self, path: &str) -> bool {
        self.files.borrow().contains_key(path)
    }

    fn rename(&mut self, from: &str, to: &str) -> Result<(), String> {
        if self.fail_first_rename.get() {
            self.fail_first_rename.set(false);
            return Err("boom".to_owned());
        }
        let mut files = self.files.borrow_mut();
        let data = files.remove(from).ok_or_else(|| "missing tmp".to_owned())?;
        files.insert(to.to_owned(), data);
        Ok(())
    }

    fn remove(&mut self, path: &str) -> Result<(), String> {
        self.files.borrow_mut().remove(path);
        Ok(())
    }
}

fn mem_ops(names: &[(&str, u8)], fail_first_rename: bool) -> MemOps {
    MemOps {
        files: RefCell::new(names.iter().map(|(n, b)| (n.to_string(), vec![*b])).collect()),
        fail_first_rename: Cell::new(fail_first_rename),
    }
}

#[test]
fn refuses_without_overwrite() {
    let mut ops = mem_ops(&[("dst", 1)], false);
    let r = install_temporary_output("tmp", "dst", "dst.backup", false, &mut ops);
    assert!(matches!(r, Err(SpreadsheetError::DestinationExists(_))));
}

#[test]
fn installation_replaces_and_cleans_up() {
    let mut ops = mem_ops(&[("dst", 1), ("tmp", 2)], false);
    install_temporary_output("tmp", "dst", "dst.backup", true, &mut ops).unwrap();
    let files = ops.files.borrow();
    assert_eq!(files.get("dst"), Some(&vec![2]));
    assert_eq!(files.len(), 1);
}

#[test]
fn failed_installation_keeps_the_destination() {
    let mut ops = mem_ops(&[("dst", 1)], false);
    assert!(install_temporary_output("tmp", "dst", "dst.backup", true, &mut ops).is_err());
    assert_eq!(ops.files.borrow().get("dst"), Some(&vec![1]));

    let mut ops = mem_ops(&[("dst", 1), ("tmp", 2)], true);
    assert!(install_temporary_output("tmp", "dst", "dst.backup", true, &mut ops).is_err());
    assert_eq!(ops.files.borrow().get("dst"), Some(&vec![1]));
}

struct LoggedOps {
    present: Vec<bool>,
    moves: Vec<Result<(), String>>,
    log: Vec<String>,
}

impl AtomicFileOperations for LoggedOps {
    fn is_present(&mut self, path: &str) -> bool {
        self.log.push(format!("ask {path}"));
        self.present.remove(0)
    }

    fn rename(&mut self, from: &str, to: &str) -> Result<(), String> {
        self.log.push(format!("move {from} {to}"));
        self.moves.remove(0)
    }

    fn remove(&mut self, path: &str) -> Result<(), String> {
        self.log.push(format!("remove {path}"));
        Err("busy".to_owned())
    }
}

fn install_logged(
    overwrite: bool,
    present: Vec<bool>,
    moves: Vec<Result<(), String>>,
) -> (Result<(), SpreadsheetError>, Vec<String>) {
    let mut ops = LoggedOps { present, moves, log: Vec::new() };
    let r = install_temporary_output("tmp", "dst", "bak", overwrite, &mut ops);
    (r, ops.log)
}

#[test]
fn installation_makes_the_calls_of_its_steps() {
    let (r, log) = install_logged(false, vec![true], vec![]);
    assert!(matches!(r, Err(SpreadsheetError::DestinationExists(path)) if path == "dst"));
    assert_eq!(log, vec!["ask dst"]);

    let (r, log) = install_logged(false, vec![false], vec![Ok(())]);
    assert!(r.is_ok());
    assert_eq!(log, vec!["ask dst", "move tmp dst"]);

    let (r, log) = install_logged(true, vec![true], vec![Ok(()), Ok(())]);
    assert!(r.is_ok());
    assert_eq!(log, vec!["ask dst", "move dst bak", "move tmp dst", "remove bak"]);

    let fails = || vec![Ok(()), Err("full".to_owned()), Ok(())];
    let (r, log) = install_logged(true, vec![true, false], fails());
    assert!(matches!(r, Err(SpreadsheetError::Io(m)) if m == "full"));
    assert_eq!(log, vec!["ask dst", "move dst bak", "move tmp dst", "ask dst", "move bak dst"]);

    let (r, log) = install_logged(true, vec![true, true], fails());
    assert!(matches!(r, Err(SpreadsheetError::Other(_))));
    assert_eq!(log, vec!["ask dst", "move dst bak", "move tmp dst", "ask dst"]);
}

#[test]
fn installation_steps_follow_events() {
    let mut steps = Installation::new(false);
    assert_eq!(steps.phase(), InstallPhase::CheckDestination);
    steps.advance(InstallEvent::Answer(true));
    assert_eq!(steps.phase(), InstallPhase::Refused);
    let fault = steps.result("dst", "dst.backup").unwrap_err();
    assert_eq!(
        fault.message(),
        "destination already exists (pass overwrite=true to replace it): dst"
    );
}

#[test]
fn errors_report_themselves() {
    let cases = vec![
        (SpreadsheetError::Io("x".into()), "I/O error: x"),
        (SpreadsheetError::Zip("x".into()), "ZIP error: x"),
        (SpreadsheetError::SheetNotFound("x".into()), "sheet not found: x"),
        (SpreadsheetError::InvalidFormat("x".into()), "invalid format: x"),
        (SpreadsheetError::UnsupportedExtension("x".into()), "unsupported extension: x"),
        (
            SpreadsheetError::RowLengthMismatch { expected: 2, got: 13 },
            "row length mismatch: expected 2 columns, got 13",
        ),
        (SpreadsheetError::NotStreaming, "not in streaming mode; call start_sheet() first"),
        (SpreadsheetError::AlreadyStreaming, "already in streaming mode; call end_sheet() first"),
        (
            SpreadsheetError::StreamingSheetOpen,
            "a streaming worksheet is still open; call end_sheet() first",
        ),
        (
            SpreadsheetError::UnsupportedPlatform("x".into()),
            "operation not supported on this platform: x",
        ),
        (SpreadsheetError::Other("x".into()), "x"),
    ];
    for (error, text) in cases {
        assert_eq!(error.message(), text);
    }
}

#[test]
fn written_relationships_lead_to_the_sheets() {
    let m = parse_relationships(&xlsx_parts::render_workbook_rels(2));
    assert_eq!(m.get("rId1"), Some("worksheets/sheet1.xml"));
    assert_eq!(m.get("rId2"), Some("worksheets/sheet2.xml"));
    assert_eq!(m.get("rId3"), Some("styles.xml"));
    assert_eq!(m.get("rId4"), Some("sharedStrings.xml"));
    assert_eq!(resolve_part(m.get("rId2").unwrap()), "xl/worksheets/sheet2.xml");
    let m = parse_relationships(&xlsb_xml::render_workbook_rels(11));
    assert_eq!(m.get("rId1"), Some("worksheets/sheet1.bin"));
    assert_eq!(m.get("rId11"), Some("worksheets/sheet11.bin"));
    assert_eq!(m.get("rId12"), None);
    assert_eq!(m.get("rId13"), Some("styles.bin"));
    assert_eq!(m.get("rId14"), Some("sharedStrings.bin"));
}
